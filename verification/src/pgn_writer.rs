//! Writing the games out in the order of their rounds, in whatever order
//! they are finished.

use vstd::prelude::*;

verus! {

/// Holds the finished games that cannot be written yet because an earlier
/// round is still being played, and hands out those that can.
pub struct PgnWriter<G> {
    pending_games: Vec<(usize, G)>,
    next_game_number: usize,
}

/// How many of the games at the front of `pending` have a number up to `n`.
pub open spec fn rank<G>(pending: Seq<(usize, G)>, n: usize) -> nat
    decreases pending.len(),
{
    if pending.len() > 0 && pending[0].0 <= n {
        1 + rank(pending.skip(1), n)
    } else {
        0
    }
}

/// The pending games with one more among them: behind the games of lower
/// or equal number, before those of higher number.
pub open spec fn with_game<G>(pending: Seq<(usize, G)>, n: usize, game: G) -> Seq<(usize, G)> {
    pending.take(rank(pending, n) as int).push((n, game)) + pending.skip(rank(pending, n) as int)
}

/// How many games at the front of `pending` can be written when `next` is
/// the round to be written next: those that hold the rounds `next`,
/// `next + 1` and so on without a gap.
pub open spec fn ready<G>(pending: Seq<(usize, G)>, next: nat) -> nat
    decreases pending.len(),
{
    if pending.len() > 0 && pending[0].0 == next {
        1 + ready(pending.skip(1), next + 1)
    } else {
        0
    }
}

pub open spec fn sorted<G>(pending: Seq<(usize, G)>) -> bool {
    forall|i: int, j: int| 0 <= i <= j < pending.len() ==> pending[i].0 <= pending[j].0
}

pub proof fn lemma_rank_is<G>(pending: Seq<(usize, G)>, n: usize, k: int)
    requires
        0 <= k <= pending.len(),
        forall|i: int| 0 <= i < k ==> pending[i].0 <= n,
        k == pending.len() || pending[k].0 > n,
    ensures
        rank(pending, n) == k,
    decreases k,
{
    if k > 0 {
        lemma_rank_is(pending.skip(1), n, k - 1);
    }
}

/// The games that are written together hold consecutive rounds, from the one
/// that was to be written next; and the round that follows them is not at
/// the front of what is left.
pub proof fn lemma_ready<G>(pending: Seq<(usize, G)>, next: nat)
    ensures
        ready(pending, next) <= pending.len(),
        forall|i: int| 0 <= i < ready(pending, next) ==> pending[i].0 == next + i,
        ready(pending, next) < pending.len() ==> pending[ready(pending, next) as int].0 != next
            + ready(pending, next),
    decreases pending.len(),
{
    if pending.len() > 0 && pending[0].0 == next {
        lemma_ready(pending.skip(1), next + 1);
        let k = ready(pending, next);
        assert forall|i: int| 0 <= i < k implies pending[i].0 == next + i by {
            if i > 0 {
                assert(pending[i] == pending.skip(1)[i - 1]);
            }
        }
        if k < pending.len() {
            assert(pending[k as int] == pending.skip(1)[k - 1]);
        }
    }
}

pub proof fn lemma_ready_is<G>(pending: Seq<(usize, G)>, next: nat, k: int)
    requires
        0 <= k <= pending.len(),
        forall|i: int| 0 <= i < k ==> pending[i].0 == next + i,
        k == pending.len() || pending[k].0 != next + k,
    ensures
        ready(pending, next) == k,
    decreases k,
{
    if k > 0 {
        assert forall|i: int| 0 <= i < k - 1 implies pending.skip(1)[i].0 == next + 1 + i by {
            assert(pending.skip(1)[i] == pending[i + 1]);
        }
        lemma_ready_is(pending.skip(1), next + 1, k - 1);
    }
}

/// All that is written while the games `submitted` come in, in that order,
/// one after the other.
pub open spec fn written_by<G>(
    pending: Seq<(usize, G)>,
    next: nat,
    submitted: Seq<(usize, G)>,
) -> Seq<(usize, G)>
    decreases submitted.len(),
{
    if submitted.len() == 0 {
        Seq::empty()
    } else {
        let all = with_game(pending, submitted[0].0, submitted[0].1);
        let k = ready(all, next);
        all.take(k as int) + written_by(all.skip(k as int), next + k, submitted.skip(1))
    }
}

/// In whatever order the games are submitted, they are written in the order
/// of their rounds, each round once and none left out: the game written at
/// place `i` is that of round `next + i`.
pub proof fn lemma_written_in_round_order<G>(
    pending: Seq<(usize, G)>,
    next: nat,
    submitted: Seq<(usize, G)>,
)
    ensures
        forall|i: int|
            0 <= i < written_by(pending, next, submitted).len() ==> (#[trigger] written_by(
                pending,
                next,
                submitted,
            )[i]).0 == next + i,
    decreases submitted.len(),
{
    if submitted.len() > 0 {
        let all = with_game(pending, submitted[0].0, submitted[0].1);
        let k = ready(all, next);
        lemma_ready(all, next);
        lemma_written_in_round_order(all.skip(k as int), next + k, submitted.skip(1));
        let rest = written_by(all.skip(k as int), next + k, submitted.skip(1));
        let total = written_by(pending, next, submitted);
        assert(total == all.take(k as int) + rest);
        assert forall|i: int| 0 <= i < total.len() implies (#[trigger] total[i]).0 == next + i by {
            if i < k {
                assert(total[i] == all[i]);
            } else {
                assert(total[i] == rest[i - k]);
            }
        }
    }
}

/// Whether one of the games is that of round `r`.
pub open spec fn has_round<G>(games: Seq<(usize, G)>, r: int) -> bool {
    exists|i: int| 0 <= i < games.len() && (#[trigger] games[i]).0 == r
}

/// No two of the games are of the same round.
pub open spec fn distinct_rounds<G>(games: Seq<(usize, G)>) -> bool {
    forall|i: int, j: int| 0 <= i < j < games.len() ==> games[i].0 != games[j].0
}

/// The games are in the order of their rounds, no round twice.
pub open spec fn increasing<G>(games: Seq<(usize, G)>) -> bool {
    forall|i: int, j: int| 0 <= i < j < games.len() ==> games[i].0 < games[j].0
}

proof fn lemma_rank<G>(pending: Seq<(usize, G)>, n: usize)
    ensures
        rank(pending, n) <= pending.len(),
        forall|i: int| 0 <= i < rank(pending, n) ==> pending[i].0 <= n,
        rank(pending, n) < pending.len() ==> pending[rank(pending, n) as int].0 > n,
    decreases pending.len(),
{
    if pending.len() > 0 && pending[0].0 <= n {
        lemma_rank(pending.skip(1), n);
        assert forall|i: int| 0 <= i < rank(pending, n) implies pending[i].0 <= n by {
            if i > 0 {
                assert(pending[i] == pending.skip(1)[i - 1]);
            }
        }
        if rank(pending, n) < pending.len() {
            assert(pending[rank(pending, n) as int] == pending.skip(1)[rank(pending, n) - 1]);
        }
    }
}

/// A game of a round that is not among the pending games takes its place
/// among them: the games before it and behind it are those that were there.
proof fn lemma_with_game<G>(pending: Seq<(usize, G)>, n: usize, game: G)
    requires
        increasing(pending),
        !has_round(pending, n as int),
    ensures
        increasing(with_game(pending, n, game)),
        with_game(pending, n, game).len() == pending.len() + 1,
        rank(pending, n) <= pending.len(),
        with_game(pending, n, game)[rank(pending, n) as int] == (n, game),
        forall|i: int|
            0 <= i < rank(pending, n) ==> #[trigger] with_game(pending, n, game)[i] == pending[i],
        forall|i: int|
            rank(pending, n) < i <= pending.len() ==> #[trigger] with_game(pending, n, game)[i]
                == pending[i - 1],
{
    lemma_rank(pending, n);
    let k = rank(pending, n) as int;
    let all = with_game(pending, n, game);
    assert forall|i: int, j: int| 0 <= i < j < all.len() implies all[i].0 < all[j].0 by {
        if i < k {
            assert(all[i] == pending[i]);
            assert(pending[i].0 != n);
        }
        if j > k {
            assert(all[j] == pending[j - 1]);
            assert(pending[j - 1].0 != n);
            if k < pending.len() && j - 1 > k {
                assert(pending[k].0 < pending[j - 1].0);
            }
        }
        if i > k {
            assert(all[i] == pending[i - 1]);
        }
        if j < k {
            assert(all[j] == pending[j]);
        }
    }
}

/// What is written in a run, from any point of it. The pending games are in
/// the order of their rounds, all of them behind the round that is awaited;
/// the games that come in are of rounds that have neither been written nor
/// are pending, each of a round of its own.
proof fn lemma_run<G>(pending: Seq<(usize, G)>, next: nat, submitted: Seq<(usize, G)>)
    requires
        increasing(pending),
        forall|i: int| 0 <= i < pending.len() ==> (#[trigger] pending[i]).0 > next,
        distinct_rounds(submitted),
        forall|i: int|
            0 <= i < submitted.len() ==> (#[trigger] submitted[i]).0 >= next && !has_round(
                pending,
                submitted[i].0 as int,
            ),
    ensures
        forall|i: int|
            0 <= i < written_by(pending, next, submitted).len() ==> (#[trigger] written_by(
                pending,
                next,
                submitted,
            )[i]).0 == next + i && (pending.contains(written_by(pending, next, submitted)[i])
                || submitted.contains(written_by(pending, next, submitted)[i])),
        !has_round(pending, (next + written_by(pending, next, submitted).len()) as int),
        !has_round(submitted, (next + written_by(pending, next, submitted).len()) as int),
    decreases submitted.len(),
{
    let w = written_by(pending, next, submitted);
    if submitted.len() == 0 {
        assert(w.len() == 0);
    } else {
        let first = submitted[0];
        let all = with_game(pending, first.0, first.1);
        let j = ready(all, next) as int;
        let at = rank(pending, first.0) as int;
        let left = all.skip(j);
        let rest = submitted.skip(1);
        lemma_with_game(pending, first.0, first.1);
        lemma_ready(all, next);
        // every game of `all` is a pending game or the one that came in
        assert forall|q: int| 0 <= q < all.len() implies (#[trigger] all[q]).0 >= next && (all[q]
            == first || pending.contains(all[q])) by {
            if q < at {
                assert(all[q] == pending[q]);
            } else if q > at {
                assert(all[q] == pending[q - 1]);
            }
        }
        // what is left is behind the round that is awaited then
        assert forall|i: int| 0 <= i < left.len() implies (#[trigger] left[i]).0 > next + j by {
            assert(left[i] == all[j + i]);
            if j > 0 {
                assert(all[j - 1].0 == next + j - 1);
                assert(all[j - 1].0 < all[j].0);
            } else {
                assert(all[0].0 >= next);
            }
            if i > 0 {
                assert(all[j].0 < all[j + i].0);
            }
        }
        assert(increasing(left)) by {
            assert forall|a: int, b: int| 0 <= a < b < left.len() implies left[a].0
                < left[b].0 by {
                assert(left[a] == all[j + a]);
                assert(left[b] == all[j + b]);
            }
        }
        assert(distinct_rounds(rest)) by {
            assert forall|a: int, b: int| 0 <= a < b < rest.len() implies rest[a].0
                != rest[b].0 by {
                assert(rest[a] == submitted[a + 1]);
                assert(rest[b] == submitted[b + 1]);
            }
        }
        assert forall|i: int| 0 <= i < rest.len() implies (#[trigger] rest[i]).0 >= next + j
            && !has_round(left, rest[i].0 as int) by {
            let r = rest[i].0;
            assert(rest[i] == submitted[i + 1]);
            assert(r != first.0);
            assert(!has_round(pending, r as int));
            // no game of `all` is of round r
            assert forall|q: int| 0 <= q < all.len() implies (#[trigger] all[q]).0 != r by {
                if q < at {
                    assert(all[q] == pending[q]);
                } else if q > at {
                    assert(all[q] == pending[q - 1]);
                }
            }
            if r < next + j {
                assert(all[r - next].0 == r);
            }
            if has_round(left, r as int) {
                let m = choose|m: int| 0 <= m < left.len() && (#[trigger] left[m]).0 == r;
                assert(left[m] == all[j + m]);
            }
        }
        lemma_run(left, (next + j) as nat, rest);
        let tail = written_by(left, (next + j) as nat, rest);
        let k = (next + j + tail.len()) as int;
        assert(w == all.take(j) + tail);
        assert forall|i: int| 0 <= i < w.len() implies (#[trigger] w[i]).0 == next + i && (
        pending.contains(w[i]) || submitted.contains(w[i])) by {
            if i < j {
                assert(w[i] == all[i]);
                if all[i] == first {
                    assert(submitted[0] == w[i]);
                }
            } else {
                assert(w[i] == tail[i - j]);
                if left.contains(tail[i - j]) {
                    let m = choose|m: int| 0 <= m < left.len() && left[m] == tail[i - j];
                    assert(left[m] == all[j + m]);
                    if all[j + m] == first {
                        assert(submitted[0] == w[i]);
                    }
                } else {
                    let m = choose|m: int| 0 <= m < rest.len() && rest[m] == tail[i - j];
                    assert(submitted[m + 1] == w[i]);
                }
            }
        }
        // no game of `all` is of round k
        assert forall|q: int| 0 <= q < all.len() implies (#[trigger] all[q]).0 != k by {
            if q >= j {
                assert(left[q - j] == all[q]);
            }
        }
        assert(!has_round(pending, k)) by {
            if has_round(pending, k) {
                let m = choose|m: int| 0 <= m < pending.len() && (#[trigger] pending[m]).0 == k;
                if m < at {
                    assert(all[m] == pending[m]);
                } else {
                    assert(all[m + 1] == pending[m]);
                }
            }
        }
        assert(!has_round(submitted, k)) by {
            if has_round(submitted, k) {
                let m = choose|m: int|
                    0 <= m < submitted.len() && (#[trigger] submitted[m]).0 == k;
                if m == 0 {
                    assert(all[at] == first);
                } else {
                    assert(rest[m - 1] == submitted[m]);
                }
            }
        }
    }
}

/// From a new writer, in whatever order the games of different rounds are
/// submitted, what is written in all are the games of the rounds before the
/// first round that has not been submitted: each of them once, in the order
/// of the rounds, and no game of a later round.
pub proof fn lemma_written_up_to_first_gap<G>(submitted: Seq<(usize, G)>)
    requires
        distinct_rounds(submitted),
    ensures
        forall|i: int|
            0 <= i < written_by(Seq::empty(), 0, submitted).len() ==> (#[trigger] written_by(
                Seq::empty(),
                0,
                submitted,
            )[i]).0 == i && submitted.contains(written_by(Seq::empty(), 0, submitted)[i]),
        !has_round(submitted, written_by(Seq::empty(), 0, submitted).len() as int),
{
    let none = Seq::<(usize, G)>::empty();
    assert forall|i: int| 0 <= i < submitted.len() implies (#[trigger] submitted[i]).0 >= 0
        && !has_round(none, submitted[i].0 as int) by {}
    lemma_run(none, 0, submitted);
}

impl<G> PgnWriter<G> {
    /// The games that are held back, in the order of their rounds.
    pub closed spec fn pending(&self) -> Seq<(usize, G)> {
        self.pending_games@
    }

    /// The round that is written next.
    pub closed spec fn next(&self) -> nat {
        self.next_game_number as nat
    }

    /// The games that are held back are in the order of their rounds, and
    /// their numbers leave room for the one that follows.
    pub closed spec fn wf(&self) -> bool {
        &&& sorted(self.pending_games@)
        &&& forall|i: int|
            0 <= i < self.pending_games@.len() ==> (#[trigger] self.pending_games@[i]).0
                < usize::MAX
    }

    pub fn new() -> (w: Self)
        ensures
            w.wf(),
            w.pending() == Seq::<(usize, G)>::empty(),
            w.next() == 0,
    {
        PgnWriter { pending_games: Vec::new(), next_game_number: 0 }
    }

    pub fn next_game_number(&self) -> (n: usize)
        ensures
            n == self.next(),
    {
        self.next_game_number
    }

    pub fn num_pending(&self) -> (n: usize)
        ensures
            n == self.pending().len(),
    {
        self.pending_games.len()
    }

    /// Takes a finished game and returns the games that can now be written,
    /// with their rounds, in the order in which they are to be written: the
    /// round that was awaited and those that follow it without a gap, as far
    /// as they have been submitted. The other games stay behind.
    pub fn submit_game(&mut self, game_number: usize, game: G) -> (written: Vec<(usize, G)>)
        requires
            old(self).wf(),
            game_number < usize::MAX,
        ensures
            final(self).wf(),
            written@ == with_game(old(self).pending(), game_number, game).take(
                ready(with_game(old(self).pending(), game_number, game), old(self).next()) as int,
            ),
            final(self).pending() == with_game(old(self).pending(), game_number, game).skip(
                ready(with_game(old(self).pending(), game_number, game), old(self).next()) as int,
            ),
            final(self).next() == old(self).next() + written@.len(),
            forall|i: int| 0 <= i < written@.len() ==> written@[i].0 == old(self).next() + i,
            final(self).pending().len() == 0 || final(self).pending()[0].0 != final(self).next(),
    {
        let ghost before = self.pending_games@;
        let ghost first = self.next_game_number as nat;
        let mut at: usize = 0;
        while at < self.pending_games.len() && self.pending_games[at].0 <= game_number
            invariant
                at <= self.pending_games@.len(),
                self.pending_games@ == before,
                forall|i: int| 0 <= i < at ==> before[i].0 <= game_number,
            decreases self.pending_games@.len() - at,
        {
            at += 1;
        }
        proof {
            lemma_rank_is(before, game_number, at as int);
        }
        self.pending_games.insert(at, (game_number, game));
        let ghost all = self.pending_games@;
        assert(all == with_game(before, game_number, game));
        assert(sorted(all)) by {
            assert forall|i: int, j: int| 0 <= i <= j < all.len() implies all[i].0 <= all[j].0 by {
                if i < at && j > at {
                    assert(before[i].0 <= before[j - 1].0);
                } else if i > at {
                    assert(before[i - 1].0 <= before[j - 1].0);
                } else if j < at {
                    assert(before[i].0 <= before[j].0);
                }
            }
        }

        let mut written: Vec<(usize, G)> = Vec::new();
        while self.pending_games.len() > 0 && self.pending_games[0].0 == self.next_game_number
            invariant
                written@.len() <= all.len(),
                written@ == all.take(written@.len() as int),
                self.pending_games@ == all.skip(written@.len() as int),
                self.next_game_number == first + written@.len(),
                forall|i: int| 0 <= i < written@.len() ==> all[i].0 == first + i,
                forall|i: int| 0 <= i < all.len() ==> (#[trigger] all[i]).0 < usize::MAX,
            decreases self.pending_games@.len(),
        {
            let ghost k = written@.len() as int;
            assert(all.skip(k)[0] == all[k]);
            let entry = self.pending_games.remove(0);
            written.push(entry);
            self.next_game_number += 1;
            assert(all.skip(k).remove(0) == all.skip(k + 1));
            assert(all.take(k).push(all[k]) == all.take(k + 1));
        }
        proof {
            let k = written@.len() as int;
            if k < all.len() {
                assert(all.skip(k)[0] == all[k]);
            }
            lemma_ready_is(all, first, k);
            assert forall|i: int, j: int|
                0 <= i <= j < self.pending_games@.len() implies self.pending_games@[i].0
                <= self.pending_games@[j].0 by {
                assert(all.skip(k)[i] == all[k + i]);
                assert(all.skip(k)[j] == all[k + j]);
            }
            assert forall|i: int| 0 <= i < self.pending_games@.len() implies (
            #[trigger] self.pending_games@[i]).0 < usize::MAX by {
                assert(all.skip(k)[i] == all[k + i]);
            }
        }
        written
    }
}

} // verus!
