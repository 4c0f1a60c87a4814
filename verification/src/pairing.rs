//! What holds of the pairings of a schedule: who meets whom, and how often
//! each engine plays and has the white pieces.

use crate::counting::{
    count, lemma_count_all, lemma_count_blocks, lemma_count_none, lemma_count_not, lemma_count_or,
    lemma_count_periodic, lemma_count_range, lemma_count_same, repeats,
};
use crate::tournament::TournamentType;
use vstd::arithmetic::div_mod::{
    lemma_div_multiples_vanish, lemma_div_pos_is_pos, lemma_fundamental_div_mod,
    lemma_fundamental_div_mod_converse, lemma_mod_pos_bound,
};
use vstd::prelude::*;

verus! {

/// The rounds in which engine `e` has the white pieces.
pub open spec fn is_white(t: TournamentType, e: nat) -> spec_fn(nat) -> bool {
    |r: nat| t.white(r) == e
}

/// The rounds in which engine `e` has the black pieces.
pub open spec fn is_black(t: TournamentType, e: nat) -> spec_fn(nat) -> bool {
    |r: nat| t.black(r) == e
}

/// The rounds in which engine `e` plays.
pub open spec fn takes_part(t: TournamentType, e: nat) -> spec_fn(nat) -> bool {
    |r: nat| t.white(r) == e || t.black(r) == e
}

/// In how many of the first `n` rounds engine `e` has the white pieces.
pub open spec fn white_games(t: TournamentType, e: nat, n: nat) -> nat {
    count(is_white(t, e), n)
}

/// In how many of the first `n` rounds engine `e` plays.
pub open spec fn games_of(t: TournamentType, e: nat, n: nat) -> nat {
    count(takes_part(t, e), n)
}

proof fn lemma_div_is(x: int, d: int, q: int)
    requires
        d > 0,
        q * d <= x < q * d + d,
    ensures
        x / d == q,
        x % d == x - q * d,
{
    lemma_fundamental_div_mod_converse(x, d, q, x - q * d);
}

proof fn lemma_div_parts(x: int, d: int)
    requires
        x >= 0,
        d > 0,
    ensures
        0 <= x / d,
        0 <= x % d < d,
        x == (x / d) * d + x % d,
{
    lemma_fundamental_div_mod(x, d);
    lemma_mod_pos_bound(x, d);
    lemma_div_pos_is_pos(x, d);
    assert(d * (x / d) == (x / d) * d) by (nonlinear_arith);
}

proof fn lemma_shift(x: int, d: int, k: int)
    requires
        x >= 0,
        d > 0,
        k >= 0,
    ensures
        (x + k * d) / d == x / d + k,
        (x + k * d) % d == x % d,
{
    lemma_div_parts(x, d);
    let q = x / d;
    assert((q + k) * d == q * d + k * d) by (nonlinear_arith);
    lemma_div_is(x + k * d, d, q + k);
}

/// The pairings repeat after a period.
pub proof fn lemma_roles_repeat(t: TournamentType, r: nat)
    requires
        t.wf(),
    ensures
        t.white(r + t.period()) == t.white(r),
        t.black(r + t.period()) == t.black(r),
{
    let x = r as int;
    match t {
        TournamentType::Gauntlet(c) => {
            let c = c as int;
            assert(c * 2 == 2 * c) by (nonlinear_arith);
            lemma_shift(x, c, 2);
            lemma_div_parts(x, c);
        },
        TournamentType::RoundRobin(n) => {
            let n = n as int;
            let a = n * (n - 1);
            assert(a == (n - 1) * n) by (nonlinear_arith)
                requires
                    a == n * (n - 1),
            ;
            assert(a > 0) by (nonlinear_arith)
                requires
                    a == n * (n - 1),
                    n >= 2,
            ;
            lemma_shift(x, n - 1, n);
            lemma_div_parts(x, n - 1);
            lemma_shift(x / (n - 1), n, 1);
            assert(1 * a == a && 1 * n == n) by (nonlinear_arith);
            lemma_shift(x, a, 1);
            lemma_div_parts(x, a);
            let s = (x % a) / n;
            lemma_div_pos_is_pos(x % a, n);
            lemma_shift(x + s + 1, n, n - 1);
        },
        TournamentType::BookTest(n) => {
            let n = n as int;
            lemma_shift(x, n, n);
            lemma_div_parts(x, n);
            lemma_shift(x / n, n, 1);
            assert(1 * n == n) by (nonlinear_arith);
        },
        TournamentType::Sprt => {},
    }
}

/// A pairing of a round robin, by the place of its round in a period: in
/// block `w` engine `w` has white and meets the others in the order of their
/// numbers.
proof fn lemma_round_robin_block(n: usize, w: nat, c: nat)
    requires
        TournamentType::RoundRobin(n).wf(),
        w < n,
        c < n - 1,
    ensures
        w * (n - 1) + c < n * (n - 1),
        TournamentType::RoundRobin(n).white((w * (n - 1) + c) as nat) == w,
        TournamentType::RoundRobin(n).black((w * (n - 1) + c) as nat) == if c < w {
            c
        } else {
            c + 1
        },
{
    let ni = n as int;
    let wi = w as int;
    let ci = c as int;
    let a = ni * (ni - 1);
    let r = wi * (ni - 1) + ci;
    assert(r >= 0 && r < a && r == wi * ni - wi + ci) by (nonlinear_arith)
        requires
            r == wi * (ni - 1) + ci,
            a == ni * (ni - 1),
            0 <= wi < ni,
            0 <= ci < ni - 1,
    ;
    lemma_div_is(r, ni - 1, wi);
    lemma_div_is(wi, ni, 0);
    assert(0 * a == 0) by (nonlinear_arith);
    lemma_div_is(r, a, 0);
    if c < w {
        assert((wi - 1) * ni == wi * ni - ni) by (nonlinear_arith);
        lemma_div_is(r, ni, wi - 1);
        lemma_div_is(r + (wi - 1) + 1, ni, wi);
    } else {
        lemma_div_is(r, ni, wi);
        lemma_div_is(r + wi + 1, ni, wi);
    }
}

/// Every round has engines of the tournament on both sides.
pub proof fn lemma_roles_in_range(t: TournamentType, r: nat)
    requires
        t.wf(),
    ensures
        t.white(r) < t.engines(),
        t.black(r) < t.engines(),
{
    let x = r as int;
    match t {
        TournamentType::Gauntlet(c) => {
            lemma_div_parts(x, c as int);
        },
        TournamentType::RoundRobin(n) => {
            let ni = n as int;
            lemma_div_parts(x, ni - 1);
            lemma_div_parts(x / (ni - 1), ni);
            assert(ni * (ni - 1) > 0) by (nonlinear_arith)
                requires
                    ni >= 2,
            ;
            lemma_div_parts(x, ni * (ni - 1));
            lemma_div_parts(x % (ni * (ni - 1)), ni);
            lemma_div_parts(x + (x % (ni * (ni - 1))) / ni + 1, ni);
        },
        TournamentType::BookTest(n) => {
            let ni = n as int;
            lemma_div_parts(x, ni);
            lemma_div_parts(x / ni, ni);
        },
        TournamentType::Sprt => {},
    }
}

/// A round of a period of a round robin lies in one of its blocks.
proof fn lemma_round_robin_place(n: usize, r: nat)
    requires
        TournamentType::RoundRobin(n).wf(),
        r < n * (n - 1),
    ensures
        r / ((n - 1) as nat) < n,
        r % ((n - 1) as nat) < n - 1,
        r == (r / ((n - 1) as nat)) * (n - 1) + r % ((n - 1) as nat),
{
    let ni = n as int;
    let x = r as int;
    lemma_div_parts(x, ni - 1);
    let w = x / (ni - 1);
    assert(w < ni) by (nonlinear_arith)
        requires
            w * (ni - 1) <= x,
            x < ni * (ni - 1),
            ni >= 2,
    ;
}

/// No engine is paired with itself, except in a book test.
pub proof fn lemma_never_plays_itself(t: TournamentType, r: nat)
    requires
        t.wf(),
        !(t is BookTest),
    ensures
        t.white(r) != t.black(r),
{
    match t {
        TournamentType::Gauntlet(c) => {
            lemma_div_parts(r as int, c as int);
        },
        TournamentType::RoundRobin(n) => {
            lemma_round_robin_reduce(n, r);
            let a = (n * (n - 1)) as nat;
            let x = r % a;
            lemma_round_robin_place(n, x);
            lemma_round_robin_block(n, x / ((n - 1) as nat), x % ((n - 1) as nat));
        },
        _ => {},
    }
}

/// A round of a round robin is paired as the round of the first period that
/// stands in its place.
proof fn lemma_round_robin_reduce(n: usize, r: nat)
    requires
        TournamentType::RoundRobin(n).wf(),
    ensures
        n * (n - 1) > 0,
        r % ((n * (n - 1)) as nat) < n * (n - 1),
        TournamentType::RoundRobin(n).white(r) == TournamentType::RoundRobin(n).white(
            r % ((n * (n - 1)) as nat),
        ),
        TournamentType::RoundRobin(n).black(r) == TournamentType::RoundRobin(n).black(
            r % ((n * (n - 1)) as nat),
        ),
    decreases r,
{
    let t = TournamentType::RoundRobin(n);
    let a = (n * (n - 1)) as nat;
    assert(n * (n - 1) > 0) by (nonlinear_arith)
        requires
            n >= 2,
    ;
    lemma_div_parts(r as int, a as int);
    if r >= a {
        let before = (r - a) as nat;
        lemma_round_robin_reduce(n, before);
        lemma_roles_repeat(t, before);
        assert(1 * (a as int) == a) by (nonlinear_arith);
        lemma_shift(before as int, a as int, 1);
    } else {
        lemma_div_is(r as int, a as int, 0);
    }
}

/// Where the rounds are a whole number of periods, a property that repeats
/// with the period is counted period by period.
proof fn lemma_count_aligned(p: spec_fn(nat) -> bool, a: nat, n: nat)
    requires
        a > 0,
        n % a == 0,
        repeats(p, a),
    ensures
        count(p, n) == (n / a) * count(p, a),
        n == (n / a) * a,
{
    lemma_div_parts(n as int, a as int);
    lemma_count_periodic(p, a, n / a);
}

/// The roles of an engine repeat with the period of the shape.
proof fn lemma_properties_repeat(t: TournamentType, e: nat)
    requires
        t.wf(),
    ensures
        repeats(is_white(t, e), t.period()),
        repeats(is_black(t, e), t.period()),
        repeats(takes_part(t, e), t.period()),
{
    reveal(repeats);
    assert forall|r: nat| #[trigger] is_white(t, e)(r) == is_white(t, e)(r + t.period()) by {
        lemma_roles_repeat(t, r);
    }
    assert forall|r: nat| #[trigger] is_black(t, e)(r) == is_black(t, e)(r + t.period()) by {
        lemma_roles_repeat(t, r);
    }
    assert forall|r: nat| #[trigger] takes_part(t, e)(r) == takes_part(t, e)(r + t.period()) by {
        lemma_roles_repeat(t, r);
    }
}

/// Head to head, each of the two engines has the white pieces in half of the
/// games, where their number is even.
pub proof fn lemma_head_to_head_white_share(t: TournamentType, e: nat, games: nat)
    requires
        t == TournamentType::Sprt || t == TournamentType::RoundRobin(2),
        e < 2,
        games % 2 == 0,
    ensures
        white_games(t, e, games) == games / 2,
{
    match t {
        TournamentType::Sprt => {
            let p = is_white(t, e);
            lemma_properties_repeat(t, e);
            lemma_count_aligned(p, 2, games);
            lemma_count_range(p, 2, e, e + 1);
            assert((games / 2) * 1 == games / 2) by (nonlinear_arith);
        },
        _ => {
            lemma_round_robin_white_share(2, e, games);
        },
    }
}

/// In a gauntlet the champion plays in every round.
pub proof fn lemma_gauntlet_champion_in_every_round(challengers: usize, r: nat)
    requires
        TournamentType::Gauntlet(challengers).wf(),
    ensures
        takes_part(TournamentType::Gauntlet(challengers), 0)(r),
{
    lemma_div_parts(r as int, challengers as int);
}

/// In a gauntlet the champion has the white pieces in half of the games,
/// where their number is a multiple of the period.
pub proof fn lemma_gauntlet_champion_white_share(challengers: usize, games: nat)
    requires
        TournamentType::Gauntlet(challengers).wf(),
        games % ((2 * challengers) as nat) == 0,
    ensures
        white_games(TournamentType::Gauntlet(challengers), 0, games) == games / 2,
{
    let t = TournamentType::Gauntlet(challengers);
    let c = challengers as nat;
    let p = is_white(t, 0);
    lemma_properties_repeat(t, 0);
    lemma_count_aligned(p, 2 * c, games);
    assert forall|r: nat| r < 2 * c implies (#[trigger] p(r) <==> 0 <= r < c) by {
        lemma_div_parts(r as int, c as int);
        if r < c {
            lemma_div_is(r as int, c as int, 0);
        } else {
            lemma_div_is(r as int, c as int, 1);
        }
    }
    lemma_count_range(p, 2 * c, 0, c);
    let q = games / (2 * c);
    assert(q * c == games / 2) by (nonlinear_arith)
        requires
            games == q * (2 * c),
    ;
}

/// In a gauntlet each challenger has the white pieces in one game of every
/// period, where the number of games is a multiple of the period.
pub proof fn lemma_gauntlet_challenger_white_share(challengers: usize, k: nat, games: nat)
    requires
        TournamentType::Gauntlet(challengers).wf(),
        1 <= k <= challengers,
        games % ((2 * challengers) as nat) == 0,
    ensures
        white_games(TournamentType::Gauntlet(challengers), k, games) == games / ((2
            * challengers) as nat),
{
    let t = TournamentType::Gauntlet(challengers);
    let c = challengers as nat;
    let p = is_white(t, k);
    lemma_properties_repeat(t, k);
    lemma_count_aligned(p, 2 * c, games);
    let lo = (c + k - 1) as nat;
    assert forall|r: nat| r < 2 * c implies (#[trigger] p(r) <==> lo <= r < lo + 1) by {
        lemma_div_parts(r as int, c as int);
        if r < c {
            lemma_div_is(r as int, c as int, 0);
        } else {
            lemma_div_is(r as int, c as int, 1);
        }
    }
    lemma_count_range(p, 2 * c, lo, lo + 1);
    let q = games / (2 * c);
    assert(q * 1 == q) by (nonlinear_arith);
}

/// In a round robin each engine has the white pieces in its share of the
/// games, where their number is a multiple of the period.
pub proof fn lemma_round_robin_white_share(engines: usize, e: nat, games: nat)
    requires
        TournamentType::RoundRobin(engines).wf(),
        e < engines,
        games % ((engines * (engines - 1)) as nat) == 0,
    ensures
        white_games(TournamentType::RoundRobin(engines), e, games) == games / (engines as nat),
{
    let t = TournamentType::RoundRobin(engines);
    let n = engines as nat;
    let a = (engines * (engines - 1)) as nat;
    let len = (n - 1) as nat;
    assert(a > 0) by (nonlinear_arith)
        requires
            a == engines * (engines - 1),
            engines >= 2,
    ;
    let p = is_white(t, e);
    lemma_properties_repeat(t, e);
    lemma_count_aligned(p, a, games);
    let lo = e * len;
    let hi = lo + len;
    assert(hi <= a) by (nonlinear_arith)
        requires
            hi == e * len + len,
            a == n * len,
            e < n,
    ;
    assert forall|r: nat| r < a implies (#[trigger] p(r) <==> lo <= r < hi) by {
        lemma_round_robin_place(engines, r);
        let w = r / len;
        lemma_round_robin_block(engines, w, r % len);
        if lo <= r < hi {
            lemma_div_is(r as int, len as int, e as int);
        }
        if w == e {
        }
    }
    lemma_count_range(p, a, lo, hi);
    let q = games / a;
    assert(q * len == games / n) by {
        assert(games == n * (q * len)) by (nonlinear_arith)
            requires
                games == q * a,
                a == n * len,
        ;
        lemma_div_multiples_vanish((q * len) as int, n as int);
    }
}

/// In a period of a round robin each engine has the black pieces once
/// against every other engine.
proof fn lemma_round_robin_black_period(engines: usize, e: nat)
    requires
        TournamentType::RoundRobin(engines).wf(),
        e < engines,
    ensures
        count(
            is_black(TournamentType::RoundRobin(engines), e),
            (engines * (engines - 1)) as nat,
        ) == engines - 1,
{
    let t = TournamentType::RoundRobin(engines);
    let n = engines as nat;
    let len = (n - 1) as nat;
    let p = is_black(t, e);
    let sel = |w: nat| w != e;
    assert forall|w: nat| w < n implies count(|r: nat| p(r + w * len), len) == if #[trigger] sel(
        w,
    ) {
        1nat
    } else {
        0nat
    } by {
        let q = |r: nat| p(r + w * len);
        assert forall|c: nat| c < len implies (#[trigger] q(c) <==> (if c < w {
            c == e
        } else {
            c + 1 == e
        })) by {
            lemma_round_robin_block(engines, w, c);
            assert(c + w * len == w * (n - 1) + c);
        }
        if w == e {
            lemma_count_none(q, len);
        } else if e < w {
            lemma_count_range(q, len, e, e + 1);
        } else {
            lemma_count_range(q, len, (e - 1) as nat, e);
        }
    }
    lemma_count_blocks(p, len, n, sel);
    let is_e = |w: nat| w == e;
    lemma_count_range(is_e, n, e, e + 1);
    lemma_count_not(is_e, n);
    lemma_count_same(sel, |r: nat| !is_e(r), n);
    assert(n * len == engines * (engines - 1)) by (nonlinear_arith)
        requires
            n == engines,
            len == engines - 1,
    ;
}

/// In a round robin each engine plays in twice its share of the games, where
/// their number is a multiple of the period.
pub proof fn lemma_round_robin_share(engines: usize, e: nat, games: nat)
    requires
        TournamentType::RoundRobin(engines).wf(),
        e < engines,
        games % ((engines * (engines - 1)) as nat) == 0,
    ensures
        games_of(TournamentType::RoundRobin(engines), e, games) == 2 * games / (engines as nat),
{
    let t = TournamentType::RoundRobin(engines);
    let n = engines as nat;
    let a = (engines * (engines - 1)) as nat;
    let len = (n - 1) as nat;
    assert(a > 0) by (nonlinear_arith)
        requires
            a == engines * (engines - 1),
            engines >= 2,
    ;
    let p = takes_part(t, e);
    lemma_properties_repeat(t, e);
    lemma_count_aligned(p, a, games);
    // one period
    let w = is_white(t, e);
    let b = is_black(t, e);
    lemma_count_or(w, b, a);
    lemma_count_same(p, |r: nat| w(r) || b(r), a);
    let both = |r: nat| w(r) && b(r);
    assert forall|r: nat| r < a implies !#[trigger] both(r) by {
        lemma_never_plays_itself(t, r);
    }
    lemma_count_none(both, a);
    lemma_round_robin_black_period(engines, e);
    lemma_properties_repeat(t, e);
    lemma_count_aligned(w, a, a);
    assert(count(w, a) == len) by {
        lemma_round_robin_white_share(engines, e, a);
        lemma_div_multiples_vanish(len as int, n as int);
        assert(a == n * len) by (nonlinear_arith)
            requires
                a == engines * (engines - 1),
                n == engines,
                len == engines - 1,
        ;
    }
    let q = games / a;
    assert(q * (2 * len) == 2 * games / n) by {
        assert(2 * games == n * (q * (2 * len))) by (nonlinear_arith)
            requires
                games == q * a,
                a == engines * (engines - 1),
                n == engines,
                len == engines - 1,
        ;
        lemma_div_multiples_vanish((q * (2 * len)) as int, n as int);
    }
}

/// In a book test each engine has the white pieces in its share of the
/// games, where their number is a multiple of the period.
pub proof fn lemma_book_test_white_share(engines: usize, e: nat, games: nat)
    requires
        TournamentType::BookTest(engines).wf(),
        e < engines,
        games % ((engines * engines) as nat) == 0,
    ensures
        white_games(TournamentType::BookTest(engines), e, games) == games / (engines as nat),
{
    let t = TournamentType::BookTest(engines);
    let n = engines as nat;
    let a = (engines * engines) as nat;
    assert(a > 0 && a == n * n) by (nonlinear_arith)
        requires
            a == engines * engines,
            n == engines,
            engines >= 1,
    ;
    let p = is_white(t, e);
    lemma_properties_repeat(t, e);
    lemma_count_aligned(p, a, games);
    lemma_book_test_white_period(engines, e);
    let q = games / a;
    assert(q * n == games / n) by {
        assert(games == n * (q * n)) by (nonlinear_arith)
            requires
                games == q * a,
                a == n * n,
        ;
        lemma_div_multiples_vanish((q * n) as int, n as int);
    }
}

/// A round of a period of a book test: engine `w` has white, engine `c`
/// black.
proof fn lemma_book_test_block(engines: usize, w: nat, c: nat)
    requires
        TournamentType::BookTest(engines).wf(),
        w < engines,
        c < engines,
    ensures
        w * engines + c < engines * engines,
        TournamentType::BookTest(engines).white((w * engines + c) as nat) == w,
        TournamentType::BookTest(engines).black((w * engines + c) as nat) == c,
{
    let n = engines as int;
    let r = w * n + c;
    assert(r < n * n) by (nonlinear_arith)
        requires
            r == w * n + c,
            0 <= w < n,
            0 <= c < n,
    ;
    lemma_div_is(r, n, w as int);
    lemma_div_is(w as int, n, 0);
}

proof fn lemma_book_test_place(engines: usize, r: nat)
    requires
        TournamentType::BookTest(engines).wf(),
        r < engines * engines,
    ensures
        r / (engines as nat) < engines,
        r % (engines as nat) < engines,
        r == (r / (engines as nat)) * engines + r % (engines as nat),
{
    let n = engines as int;
    lemma_div_parts(r as int, n);
    let w = (r as int) / n;
    assert(w < n) by (nonlinear_arith)
        requires
            w * n <= r,
            r < n * n,
            n >= 1,
    ;
}

proof fn lemma_book_test_white_period(engines: usize, e: nat)
    requires
        TournamentType::BookTest(engines).wf(),
        e < engines,
    ensures
        count(is_white(TournamentType::BookTest(engines), e), (engines * engines) as nat)
            == engines,
{
    let t = TournamentType::BookTest(engines);
    let n = engines as nat;
    let a = (engines * engines) as nat;
    let p = is_white(t, e);
    let lo = e * n;
    let hi = lo + n;
    assert(hi <= a) by (nonlinear_arith)
        requires
            hi == e * n + n,
            a == n * n,
            e < n,
    ;
    assert forall|r: nat| r < a implies (#[trigger] p(r) <==> lo <= r < hi) by {
        lemma_book_test_place(engines, r);
        lemma_book_test_block(engines, r / n, r % n);
        if lo <= r < hi {
            lemma_div_is(r as int, n as int, e as int);
        }
    }
    lemma_count_range(p, a, lo, hi);
}

proof fn lemma_book_test_black_period(engines: usize, e: nat)
    requires
        TournamentType::BookTest(engines).wf(),
        e < engines,
    ensures
        count(is_black(TournamentType::BookTest(engines), e), (engines * engines) as nat)
            == engines,
{
    let t = TournamentType::BookTest(engines);
    let n = engines as nat;
    let p = is_black(t, e);
    let sel = |w: nat| true;
    assert forall|w: nat| w < n implies count(|r: nat| p(r + w * n), n) == if #[trigger] sel(w) {
        1nat
    } else {
        0nat
    } by {
        let q = |r: nat| p(r + w * n);
        assert forall|c: nat| c < n implies (#[trigger] q(c) <==> e <= c < e + 1) by {
            lemma_book_test_block(engines, w, c);
            assert(c + w * n == w * engines + c);
        }
        lemma_count_range(q, n, e, e + 1);
    }
    lemma_count_blocks(p, n, n, sel);
    lemma_count_all(sel, n);
}

/// In a book test each engine plays in `2N - 1` games of every `N * N`,
/// where the number of games is a multiple of the period: it meets itself
/// once in each.
pub proof fn lemma_book_test_share(engines: usize, e: nat, games: nat)
    requires
        TournamentType::BookTest(engines).wf(),
        e < engines,
        games % ((engines * engines) as nat) == 0,
    ensures
        games_of(TournamentType::BookTest(engines), e, games) == games * (2 * engines - 1) / ((
        engines * engines) as int),
{
    let t = TournamentType::BookTest(engines);
    let n = engines as nat;
    let a = (engines * engines) as nat;
    assert(a > 0 && a == n * n) by (nonlinear_arith)
        requires
            a == engines * engines,
            n == engines,
            engines >= 1,
    ;
    let p = takes_part(t, e);
    lemma_properties_repeat(t, e);
    lemma_count_aligned(p, a, games);
    let w = is_white(t, e);
    let b = is_black(t, e);
    lemma_count_or(w, b, a);
    lemma_count_same(p, |r: nat| w(r) || b(r), a);
    let both = |r: nat| w(r) && b(r);
    let meet = e * n + e;
    assert forall|r: nat| r < a implies (#[trigger] both(r) <==> meet <= r < meet + 1) by {
        lemma_book_test_place(engines, r);
        lemma_book_test_block(engines, r / n, r % n);
        lemma_book_test_block(engines, e, e);
    }
    lemma_book_test_block(engines, e, e);
    lemma_count_range(both, a, meet, meet + 1);
    lemma_book_test_white_period(engines, e);
    lemma_book_test_black_period(engines, e);
    let q = games / a;
    let k = (2 * n - 1) as nat;
    assert(count(p, a) == k);
    assert(q * k == games * (2 * engines - 1) / (a as int)) by {
        assert(games * (2 * engines - 1) == a * (q * k)) by (nonlinear_arith)
            requires
                games == q * a,
                k == 2 * engines - 1,
        ;
        lemma_div_multiples_vanish((q * k) as int, a as int);
    }
}

} // verus!
