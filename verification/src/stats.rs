//! Tallies of results, by game and by game pair.

use crate::decimal::{decimal_digits, push_decimal};
use vstd::prelude::*;

verus! {

/// Wins, draws and losses.
#[derive(Copy, Clone, Debug, Default)]
pub struct TrinomialResult {
    pub w: u64,
    pub d: u64,
    pub l: u64,
}

/// The tally of game pairs, by what one engine made of each pair.
#[derive(Copy, Clone, Debug, Default)]
pub struct PentanomialResult {
    pub ll: u64,
    pub dl: u64,
    pub dd: u64,
    pub wl: u64,
    pub wd: u64,
    pub ww: u64,
}

impl TrinomialResult {
    /// The tally by rising score: losses, draws, wins.
    pub open spec fn buckets(self) -> Seq<u64> {
        seq![self.l, self.d, self.w]
    }

    pub open spec fn total(self) -> nat {
        (self.l + self.d + self.w) as nat
    }

    pub fn to_vec(&self) -> (v: Vec<u64>)
        ensures
            v@ == self.buckets(),
    {
        let mut v: Vec<u64> = Vec::new();
        v.push(self.l);
        v.push(self.d);
        v.push(self.w);
        assert(v@ =~= self.buckets());
        v
    }

    /// The tally as it is shown: wins, losses and draws.
    pub open spec fn text(self) -> Seq<char> {
        "+"@ + decimal_digits(self.w as nat) + "-"@ + decimal_digits(self.l as nat) + "="@
            + decimal_digits(self.d as nat)
    }

    pub fn to_string(&self) -> (s: String)
        ensures
            s@ == self.text(),
    {
        let mut s = String::from_str("+");
        push_decimal(&mut s, self.w as u128);
        s.append("-");
        push_decimal(&mut s, self.l as u128);
        s.append("=");
        push_decimal(&mut s, self.d as u128);
        s
    }

    /// The number of games.
    pub fn count(&self) -> (n: u64)
        requires
            self.total() <= u64::MAX,
        ensures
            n == self.total(),
    {
        self.l + self.d + self.w
    }
}

impl PentanomialResult {
    /// The tally by rising score: two losses; a draw and a loss; two draws
    /// or a win and a loss; a win and a draw; two wins.
    pub open spec fn buckets(self) -> Seq<u64> {
        seq![self.ll, self.dl, (self.dd + self.wl) as u64, self.wd, self.ww]
    }

    pub open spec fn total(self) -> nat {
        (self.ll + self.dl + self.dd + self.wl + self.wd + self.ww) as nat
    }

    pub fn to_vec(&self) -> (v: Vec<u64>)
        requires
            self.dd + self.wl <= u64::MAX,
        ensures
            v@ == self.buckets(),
    {
        let mut v: Vec<u64> = Vec::new();
        v.push(self.ll);
        v.push(self.dl);
        v.push(self.dd + self.wl);
        v.push(self.wd);
        v.push(self.ww);
        assert(v@ =~= self.buckets());
        v
    }

    /// The tally as it is shown: the pairs by rising score, in brackets.
    pub open spec fn text(self) -> Seq<char> {
        "["@ + decimal_digits(self.ll as nat) + ", "@ + decimal_digits(self.dl as nat) + ", "@
            + decimal_digits((self.dd + self.wl) as nat) + ", "@ + decimal_digits(self.wd as nat)
            + ", "@ + decimal_digits(self.ww as nat) + "]"@
    }

    pub fn to_string(&self) -> (s: String)
        ensures
            s@ == self.text(),
    {
        let mut s = String::from_str("[");
        push_decimal(&mut s, self.ll as u128);
        s.append(", ");
        push_decimal(&mut s, self.dl as u128);
        s.append(", ");
        push_decimal(&mut s, self.dd as u128 + self.wl as u128);
        s.append(", ");
        push_decimal(&mut s, self.wd as u128);
        s.append(", ");
        push_decimal(&mut s, self.ww as u128);
        s.append("]");
        s
    }

    /// The number of pairs.
    pub fn count(&self) -> (n: u64)
        requires
            self.total() <= u64::MAX,
        ensures
            n == self.total(),
    {
        self.ll + self.dl + self.dd + self.wl + self.wd + self.ww
    }
}

} // verus!
