use vstd::prelude::*;

verus! {

/// A signed 64-bit integer times an unsigned one fits in 128 bits.
proof fn lemma_product_fits(x: int, y: int)
    requires
        -0x8000_0000_0000_0000 <= x < 0x8000_0000_0000_0000,
        0 <= y < 0x1_0000_0000_0000_0000,
    ensures
        -0x8000_0000_0000_0000_0000_0000_0000_0000 < x * y < 0x7fff_ffff_ffff_ffff_ffff_ffff_ffff_ffff,
{
    assert(-0x8000_0000_0000_0000_0000_0000_0000_0000 < x * y < 0x7fff_ffff_ffff_ffff_ffff_ffff_ffff_ffff) by (nonlinear_arith)
        requires
            -0x8000_0000_0000_0000 <= x < 0x8000_0000_0000_0000,
            0 <= y < 0x1_0000_0000_0000_0000,
    ;
}

/// An exact rational number `num / den`, the value of a scalar metric of a
/// distribution. Well formed when `den > 0`.
#[derive(Clone, Copy, Debug, PartialEq, Eq, Structural)]
pub struct Fraction {
    pub num: i64,
    pub den: u64,
}

impl Fraction {
    pub open spec fn wf(self) -> bool {
        self.den > 0
    }

    /// `self < other` as rationals.
    pub open spec fn less(self, other: Fraction) -> bool {
        self.num * other.den < other.num * self.den
    }

    pub fn lt(&self, other: &Fraction) -> (r: bool)
        ensures
            r == self.less(*other),
    {
        let sn = self.num as i128;
        let od = other.den as i128;
        let on = other.num as i128;
        let sd = self.den as i128;
        proof {
            lemma_product_fits(sn as int, od as int);
            lemma_product_fits(on as int, sd as int);
        }
        let a = sn * od;
        let b = on * sd;
        a < b
    }
}

/// The outcome distribution of a position for the player on move, held exactly:
/// each of the six outcomes has a nonnegative weight, and its probability is
/// that weight divided by the sum of all six.
#[derive(Clone, Copy, Debug, PartialEq, Eq, Structural)]
pub struct Probabilities {
    pub win_normal: u32,
    pub win_gammon: u32,
    pub win_bg: u32,
    pub lose_normal: u32,
    pub lose_gammon: u32,
    pub lose_bg: u32,
}

/// Sum of six weights given as a sequence.
pub open spec fn sum6(c: Seq<u32>) -> int {
    c[0] + c[1] + c[2] + c[3] + c[4] + c[5]
}

impl Probabilities {
    /// Sum of the six weights: the common denominator of the six probabilities.
    pub open spec fn total_spec(self) -> int {
        self.win_normal + self.win_gammon + self.win_bg + self.lose_normal + self.lose_gammon
            + self.lose_bg
    }

    /// A distribution: at least one weight is positive.
    pub open spec fn wf(self) -> bool {
        self.total_spec() > 0
    }

    /// Cubeless equity times the total. The weights are this model's own
    /// stand-in for the equity of the distribution's owner: a normal win counts
    /// one point, a gammon two and a backgammon three, a loss as many points
    /// negative.
    pub open spec fn equity_num(self) -> int {
        self.win_normal + 2 * self.win_gammon + 3 * self.win_bg - self.lose_normal - 2
            * self.lose_gammon - 3 * self.lose_bg
    }

    /// Winning chances times the total.
    pub open spec fn win_num(self) -> int {
        self.win_normal + self.win_gammon + self.win_bg
    }

    /// The same distribution seen by the other player.
    pub open spec fn switched(self) -> Probabilities {
        Probabilities {
            win_normal: self.lose_normal,
            win_gammon: self.lose_gammon,
            win_bg: self.lose_bg,
            lose_normal: self.win_normal,
            lose_gammon: self.win_gammon,
            lose_bg: self.win_bg,
        }
    }

    /// The equity as an exact fraction.
    pub open spec fn equity_spec(self) -> Fraction {
        Fraction { num: self.equity_num() as i64, den: self.total_spec() as u64 }
    }

    /// The winning chances as an exact fraction.
    pub open spec fn win_spec(self) -> Fraction {
        Fraction { num: self.win_num() as i64, den: self.total_spec() as u64 }
    }

    /// The distribution of six counts given as a sequence.
    pub open spec fn new_spec(c: Seq<u32>) -> Probabilities {
        Probabilities {
            win_normal: c[0],
            win_gammon: c[1],
            win_bg: c[2],
            lose_normal: c[3],
            lose_gammon: c[4],
            lose_bg: c[5],
        }
    }

    /// Normalises six outcome counts, in the order win normal, win gammon,
    /// win backgammon, lose normal, lose gammon, lose backgammon.
    pub fn new(counts: &[u32; 6]) -> (p: Probabilities)
        requires
            sum6(counts@) > 0,
        ensures
            p.wf(),
            p == Probabilities::new_spec(counts@),
            p.win_normal == counts@[0],
            p.win_gammon == counts@[1],
            p.win_bg == counts@[2],
            p.lose_normal == counts@[3],
            p.lose_gammon == counts@[4],
            p.lose_bg == counts@[5],
            p.total_spec() == sum6(counts@),
    {
        Probabilities {
            win_normal: counts[0],
            win_gammon: counts[1],
            win_bg: counts[2],
            lose_normal: counts[3],
            lose_gammon: counts[4],
            lose_bg: counts[5],
        }
    }

    /// The common denominator of the six probabilities.
    pub fn total(&self) -> (t: u64)
        ensures
            t == self.total_spec(),
    {
        self.win_normal as u64 + self.win_gammon as u64 + self.win_bg as u64
            + self.lose_normal as u64 + self.lose_gammon as u64 + self.lose_bg as u64
    }

    /// Cubeless equity of the distribution, between -3 and 3.
    pub fn equity(&self) -> (e: Fraction)
        requires
            self.wf(),
        ensures
            e == self.equity_spec(),
            e.wf(),
    {
        let num = self.win_normal as i64 + 2 * (self.win_gammon as i64) + 3 * (
        self.win_bg as i64) - self.lose_normal as i64 - 2 * (self.lose_gammon as i64) - 3 * (
        self.lose_bg as i64);
        Fraction { num, den: self.total() }
    }

    /// Probability of winning, in any of the three ways.
    pub fn win(&self) -> (w: Fraction)
        requires
            self.wf(),
        ensures
            w == self.win_spec(),
            w.wf(),
    {
        let num = self.win_normal as i64 + self.win_gammon as i64 + self.win_bg as i64;
        Fraction { num, den: self.total() }
    }

    /// Swaps every win with the loss of the same magnitude.
    pub fn switch_sides(&self) -> (p: Probabilities)
        ensures
            p == self.switched(),
    {
        Probabilities {
            win_normal: self.lose_normal,
            win_gammon: self.lose_gammon,
            win_bg: self.lose_bg,
            lose_normal: self.win_normal,
            lose_gammon: self.win_gammon,
            lose_bg: self.win_bg,
        }
    }
}

/// The six probabilities made from nonnegative counts add up to exactly one:
/// their numerators add up to their common denominator.
pub proof fn lemma_new_sums_to_one(counts: [u32; 6])
    requires
        sum6(counts@) > 0,
    ensures
        ({
            let p = Probabilities::new_spec(counts@);
            &&& p.wf()
            &&& p.total_spec() == sum6(counts@)
            &&& p.win_normal + p.win_gammon + p.win_bg + p.lose_normal + p.lose_gammon + p.lose_bg
                == p.total_spec()
        }),
{
}

/// Switching sides twice gives the distribution back, and a switch keeps the
/// total while it negates the equity.
pub proof fn lemma_switch_sides_involution(p: Probabilities)
    ensures
        p.switched().switched() == p,
        p.switched().total_spec() == p.total_spec(),
        p.switched().equity_num() == -p.equity_num(),
{
}

} // verus!
