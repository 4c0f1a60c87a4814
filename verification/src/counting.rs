//! Counting the rounds that have a property.

use vstd::prelude::*;

verus! {

/// How many of the rounds `0 .. n` have the property `p`.
pub open spec fn count(p: spec_fn(nat) -> bool, n: nat) -> nat
    decreases n,
{
    if n == 0 {
        0
    } else {
        count(p, (n - 1) as nat) + if p((n - 1) as nat) {
            1nat
        } else {
            0nat
        }
    }
}

/// Two properties that agree on the rounds `0 .. n` are counted alike.
pub proof fn lemma_count_same(p: spec_fn(nat) -> bool, q: spec_fn(nat) -> bool, n: nat)
    requires
        forall|r: nat| r < n ==> #[trigger] p(r) == q(r),
    ensures
        count(p, n) == count(q, n),
    decreases n,
{
    if n > 0 {
        lemma_count_same(p, q, (n - 1) as nat);
    }
}

/// The rounds `0 .. a + b` are the rounds `0 .. a` and the `b` rounds that
/// follow them.
pub proof fn lemma_count_append(p: spec_fn(nat) -> bool, a: nat, b: nat)
    ensures
        count(p, a + b) == count(p, a) + count(|r: nat| p(r + a), b),
    decreases b,
{
    if b > 0 {
        lemma_count_append(p, a, (b - 1) as nat);
        assert((b - 1) as nat + a == (a + b - 1) as nat);
    }
}

/// Where the property holds of exactly the rounds `lo .. hi`, the count is
/// the number of those among `0 .. n`.
pub proof fn lemma_count_range(p: spec_fn(nat) -> bool, n: nat, lo: nat, hi: nat)
    requires
        lo <= hi,
        forall|r: nat| r < n ==> (#[trigger] p(r) <==> lo <= r < hi),
    ensures
        count(p, n) == if n <= lo {
            0
        } else if n <= hi {
            n - lo
        } else {
            hi - lo
        },
    decreases n,
{
    if n > 0 {
        lemma_count_range(p, (n - 1) as nat, lo, hi);
    }
}

/// Where the property holds of no round, the count is 0; where of every
/// round, the count is their number.
pub proof fn lemma_count_none(p: spec_fn(nat) -> bool, n: nat)
    requires
        forall|r: nat| r < n ==> !#[trigger] p(r),
    ensures
        count(p, n) == 0,
{
    lemma_count_range(p, n, 0, 0);
}

pub proof fn lemma_count_all(p: spec_fn(nat) -> bool, n: nat)
    requires
        forall|r: nat| r < n ==> #[trigger] p(r),
    ensures
        count(p, n) == n,
{
    lemma_count_range(p, n, 0, n);
}

/// The rounds that have one of two properties, and those that have both.
pub proof fn lemma_count_or(p: spec_fn(nat) -> bool, q: spec_fn(nat) -> bool, n: nat)
    ensures
        count(|r: nat| p(r) || q(r), n) + count(|r: nat| p(r) && q(r), n) == count(p, n) + count(
            q,
            n,
        ),
    decreases n,
{
    if n > 0 {
        lemma_count_or(p, q, (n - 1) as nat);
    }
}

pub proof fn lemma_count_not(p: spec_fn(nat) -> bool, n: nat)
    ensures
        count(|r: nat| !p(r), n) + count(p, n) == n,
    decreases n,
{
    if n > 0 {
        lemma_count_not(p, (n - 1) as nat);
    }
}

/// The property holds of a round where it holds of the round `a` rounds
/// later.
#[verifier::opaque]
pub open spec fn repeats(p: spec_fn(nat) -> bool, a: nat) -> bool {
    forall|r: nat| #[trigger] p(r) == p(r + a)
}

/// A property that repeats after `a` rounds holds as often in each run of
/// `a` rounds as in the first.
pub proof fn lemma_count_periodic(p: spec_fn(nat) -> bool, a: nat, q: nat)
    requires
        repeats(p, a),
    ensures
        count(p, q * a) == q * count(p, a),
    decreases q,
{
    if q > 0 {
        lemma_count_periodic(p, a, (q - 1) as nat);
        let before = ((q - 1) * a) as nat;
        assert(q * a == before + a) by (nonlinear_arith)
            requires
                before == (q - 1) * a,
        ;
        lemma_count_append(p, before, a);
        let shifted = |r: nat| p(r + before);
        assert forall|r: nat| r < a implies #[trigger] shifted(r) == p(r) by {
            lemma_repeats(p, a, (q - 1) as nat, r);
        }
        lemma_count_same(shifted, p, a);
        assert(q * count(p, a) == (q - 1) * count(p, a) + count(p, a)) by (nonlinear_arith);
    } else {
        assert(q * a == 0) by (nonlinear_arith)
            requires
                q == 0,
        ;
        assert(q * count(p, a) == 0) by (nonlinear_arith)
            requires
                q == 0,
        ;
    }
}

/// A property that repeats after `a` rounds repeats after `k * a` rounds.
pub proof fn lemma_repeats(p: spec_fn(nat) -> bool, a: nat, k: nat, r: nat)
    requires
        repeats(p, a),
    ensures
        p(r + k * a) == p(r),
    decreases k,
{
    if k > 0 {
        reveal(repeats);
        lemma_repeats(p, a, (k - 1) as nat, r);
        let x = r + ((k - 1) as nat) * a;
        assert(r + k * a == x + a) by (nonlinear_arith)
            requires
                x == r + ((k - 1) as nat) * a,
                k > 0,
        ;
        assert(p(x) == p(x + a));
    } else {
        assert(r + k * a == r) by (nonlinear_arith)
            requires
                k == 0,
        ;
    }
}

/// Where each run of `len` rounds holds one round with the property or
/// none, the rounds with the property are as many as the runs that hold one.
pub proof fn lemma_count_blocks(
    p: spec_fn(nat) -> bool,
    len: nat,
    blocks: nat,
    sel: spec_fn(nat) -> bool,
)
    requires
        forall|b: nat|
            b < blocks ==> count(|r: nat| p(r + b * len), len) == if #[trigger] sel(b) {
                1nat
            } else {
                0nat
            },
    ensures
        count(p, blocks * len) == count(sel, blocks),
    decreases blocks,
{
    if blocks > 0 {
        let b = (blocks - 1) as nat;
        lemma_count_blocks(p, len, b, sel);
        assert(blocks * len == b * len + len) by (nonlinear_arith)
            requires
                b == blocks - 1,
        ;
        lemma_count_append(p, b * len, len);
        assert(sel(b) || !sel(b));
    } else {
        assert(blocks * len == 0) by (nonlinear_arith)
            requires
                blocks == 0,
        ;
    }
}

} // verus!
