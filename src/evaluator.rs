use vstd::prelude::*;
use crate::board::{successors, Board, Dice};
use crate::probabilities::{sum6, Fraction, Probabilities};
use crate::random::random_below;
use crate::selection::{
    all_wf, at_most, first_min, first_set, is_first_min, is_first_set, is_ranking, lists, rank_descending,
    ranks_before,
};

verus! {

/// A metric that accepts every distribution and yields a well-formed fraction.
pub open spec fn is_metric<F: Fn(&Probabilities) -> Fraction>(value: F) -> bool {
    &&& forall|p: Probabilities| p.wf() ==> #[trigger] value.requires((&p,))
    &&& forall|p: Probabilities, f: Fraction| #[trigger] value.ensures((&p,), f) ==> f.wf()
}

/// Whether each candidate is an immediate loss for its player on move.
pub open spec fn lost_flags<B: Board>(cands: Seq<B>) -> Seq<bool> {
    Seq::new(cands.len(), |j: int| cands[j].lost())
}

/// Some candidate is an immediate loss for its player on move.
pub open spec fn any_lost<B: Board>(cands: Seq<B>) -> bool {
    exists|j: int| 0 <= j < cands.len() && #[trigger] lost_flags(cands)[j]
}

/// The evaluation relation of an evaluator.
pub open spec fn judge<B: Board, E: Evaluator<B>>(ev: E) -> spec_fn(B, Probabilities) -> bool {
    |q: B, p: Probabilities| ev.evaluates(q, p)
}

/// `probs` are evaluations by `ev` of the candidates, one for each, in order.
pub open spec fn evaluations<B: Board>(ev: spec_fn(B, Probabilities) -> bool, cands: Seq<B>, probs: Seq<Probabilities>) -> bool {
    &&& probs.len() == cands.len()
    &&& forall|i: int| 0 <= i < probs.len() ==> (#[trigger] probs[i]).wf() && ev(cands[i], probs[i])
}

/// `vals` are what `value` gave on the distributions `probs`.
pub open spec fn metric_values<F: Fn(&Probabilities) -> Fraction>(
    value: F,
    probs: Seq<Probabilities>,
    vals: Seq<Fraction>,
) -> bool {
    &&& probs.len() == vals.len()
    &&& forall|i: int| 0 <= i < probs.len() ==> value.ensures((&probs[i],), #[trigger] vals[i])
}

/// Index `i` is the candidate that the choice of the lowest value takes: the
/// only candidate; else the first immediate loss; else, with every candidate
/// evaluated by `ev`, the first of lowest value.
pub open spec fn worst_by<B: Board, F: Fn(&Probabilities) -> Fraction>(
    ev: spec_fn(B, Probabilities) -> bool,
    value: F,
    cands: Seq<B>,
    i: int,
) -> bool {
    &&& 0 <= i < cands.len()
    &&& cands.len() == 1 ==> i == 0
    &&& cands.len() > 1 && any_lost(cands) ==> is_first_set(lost_flags(cands), i)
    &&& cands.len() > 1 && !any_lost(cands) ==> exists|probs: Seq<Probabilities>, vals: Seq<Fraction>|
        #[trigger] evaluations(ev, cands, probs) && #[trigger] metric_values(value, probs, vals) && is_first_min(vals, i)
}

/// Index `i` is the candidate that the choice of the lowest equity takes: as
/// `worst_by`, with the equities of the evaluations as values.
pub open spec fn worst_by_equity<B: Board>(ev: spec_fn(B, Probabilities) -> bool, cands: Seq<B>, i: int) -> bool {
    &&& 0 <= i < cands.len()
    &&& cands.len() == 1 ==> i == 0
    &&& cands.len() > 1 && any_lost(cands) ==> is_first_set(lost_flags(cands), i)
    &&& cands.len() > 1 && !any_lost(cands) ==> exists|probs: Seq<Probabilities>|
        #[trigger] evaluations(ev, cands, probs) && is_first_min(equities(probs), i)
}

/// An evaluator that can only evaluate certain positions, for example only
/// backgames or only bearoffs.
pub trait PartialEvaluator<B: Board> {
    /// `None` if the position cannot be evaluated, else its distribution.
    fn try_eval(&self, pos: &B) -> (r: Option<Probabilities>)
        ensures
            r matches Some(p) ==> p.wf(),
    ;
}

impl<B: Board, T: Evaluator<B>> PartialEvaluator<B> for T {
    /// Every position can be evaluated: the result is what `eval` gives.
    fn try_eval(&self, pos: &B) -> (r: Option<Probabilities>)
        ensures
            r matches Some(p) && self.evaluates(*pos, p),
    {
        Some(self.eval(pos))
    }
}

pub trait Evaluator<B: Board>: Sized {
    /// `p` is a possible evaluation of `pos`: for a deterministic evaluator,
    /// the one it gives.
    spec fn evaluates(&self, pos: B, p: Probabilities) -> bool;

    /// A cubeless evaluation of a position, from the side of the player on move.
    fn eval(&self, pos: &B) -> (p: Probabilities)
        ensures
            p.wf(),
            self.evaluates(*pos, p),
    ;

    /// The position after the best move: the one of lowest equity, as the
    /// returned position is already seen from the opponent's side.
    fn best_position_by_equity(&self, pos: &B, dice: &Dice) -> (r: B)
        ensures
            exists|i: int| worst_by_equity(|q: B, p: Probabilities| self.evaluates(q, p), successors(*pos, *dice), i) && r == successors(*pos, *dice)[i],
    {
        let metric = |p: &Probabilities| -> (f: Fraction)
            requires
                p.wf(),
            ensures
                f == p.equity_spec(),
                f.wf(),
            { p.equity() };
        let r = self.best_position(pos, dice, metric);
        proof {
            let cands = successors(*pos, *dice);
            let i = choose|i: int| worst_by(|q: B, p: Probabilities| self.evaluates(q, p), metric, cands, i) && r == cands[i];
            if cands.len() > 1 && !any_lost(cands) {
                let (probs, vals) = choose|probs: Seq<Probabilities>, vals: Seq<Fraction>|
                    evaluations(|q: B, p: Probabilities| self.evaluates(q, p), cands, probs) && #[trigger] metric_values(metric, probs, vals) && is_first_min(vals, i);
                assert(vals =~= equities(probs));
                assert(evaluations(|q: B, p: Probabilities| self.evaluates(q, p), cands, probs) && is_first_min(equities(probs), i));
            }
            assert(worst_by_equity(|q: B, p: Probabilities| self.evaluates(q, p), cands, i));
        }
        r
    }

    /// The position after the best move by the given metric: the one of
    /// lowest value, as the returned position is seen from the opponent's side.
    fn best_position<F: Fn(&Probabilities) -> Fraction>(&self, pos: &B, dice: &Dice, value: F) -> (r: B)
        requires
            is_metric(value),
        ensures
            exists|i: int| worst_by(|q: B, p: Probabilities| self.evaluates(q, p), value, successors(*pos, *dice), i) && r == successors(*pos, *dice)[i],
    {
        let mut candidates = pos.all_positions_after_moving(dice);
        assert(candidates@ =~= successors(*pos, *dice));
        let i = self.worst_position(&candidates, value);
        let r = candidates.remove(i);
        assert(worst_by(|q: B, p: Probabilities| self.evaluates(q, p), value, successors(*pos, *dice), i as int) && r == successors(*pos, *dice)[i as int]);
        r
    }

    /// Index of the position of lowest value, which is the best one once the
    /// sides are switched. A single candidate is taken without evaluation, and
    /// so is the first candidate whose player on move has already lost;
    /// otherwise every candidate is evaluated and the first of lowest value is
    /// taken.
    fn worst_position<F: Fn(&Probabilities) -> Fraction>(&self, positions: &Vec<B>, value: F) -> (r: usize)
        requires
            positions@.len() > 0,
            is_metric(value),
        ensures
            worst_by(|q: B, p: Probabilities| self.evaluates(q, p), value, positions@, r as int),
    {
        let n = positions.len();
        if n == 1 {
            return 0;
        }
        let mut lost: Vec<bool> = Vec::new();
        let mut k: usize = 0;
        while k < n
            invariant
                n == positions@.len(),
                k <= n,
                lost@.len() == k,
                forall|j: int| 0 <= j < k ==> lost@[j] == #[trigger] lost_flags(positions@)[j],
            decreases n - k,
        {
            lost.push(positions[k].has_lost());
            k = k + 1;
        }
        assert(lost@ =~= lost_flags(positions@));
        if let Some(i) = first_set(&lost) {
            return i;
        }
        let mut values: Vec<Fraction> = Vec::new();
        let ghost mut probs: Seq<Probabilities> = Seq::empty();
        let mut k: usize = 0;
        while k < n
            invariant
                n == positions@.len(),
                k <= n,
                values@.len() == k,
                all_wf(values@),
                is_metric(value),
                probs.len() == k,
                metric_values(value, probs, values@),
                forall|i: int| 0 <= i < k ==> (#[trigger] probs[i]).wf() && self.evaluates(positions@[i], probs[i]),
            decreases n - k,
        {
            let p = self.eval(&positions[k]);
            let f = value(&p);
            values.push(f);
            proof {
                probs = probs.push(p);
            }
            k = k + 1;
        }
        let i = first_min(&values);
        assert(evaluations(|q: B, p: Probabilities| self.evaluates(q, p), positions@, probs) && metric_values(value, probs, values@) && is_first_min(values@, i as int));
        i
    }

    /// Every legal position after moving with `dice`, switched back to the side
    /// of the player on move, with its evaluation switched back likewise;
    /// sorted from the highest equity to the lowest, candidates of equal
    /// equity in the order the board listed them.
    fn positions_and_probabilities_by_equity(&self, position: &B, dice: &Dice) -> (r: Vec<(B, Probabilities)>)
        ensures
            r@.len() == successors(*position, *dice).len(),
            exists|evals: Seq<Probabilities>, order: Seq<usize>|
                #[trigger] is_ranking(switched_equities(evals), order)
                && evaluations(|q: B, p: Probabilities| self.evaluates(q, p), successors(*position, *dice), evals) && forall|a: int| 0 <= a < r@.len() ==> (#[trigger] r@[a]).0
                == successors(*position, *dice)[order[a] as int].switched() && r@[a].1 == evals[order[a] as int].switched(),
            forall|a: int, b: int|
                0 <= a < b < r@.len() ==> at_most((#[trigger] r@[b]).1.equity_spec(), (#[trigger] r@[a]).1.equity_spec()),
    {
        let after_moving = position.all_positions_after_moving(dice);
        assert(after_moving@ =~= successors(*position, *dice));
        let n = after_moving.len();
        let mut probs: Vec<Probabilities> = Vec::new();
        let mut keys: Vec<Fraction> = Vec::new();
        let ghost mut evals: Seq<Probabilities> = Seq::empty();
        let mut k: usize = 0;
        while k < n
            invariant
                n == after_moving@.len(),
                k <= n,
                probs@.len() == k,
                keys@.len() == k,
                evals.len() == k,
                forall|i: int| 0 <= i < k ==> (#[trigger] evals[i]).wf() && self.evaluates(after_moving@[i], evals[i]),
                forall|i: int| 0 <= i < k ==> (#[trigger] probs@[i]).wf() && keys@[i] == probs@[i].equity_spec()
                    && probs@[i] == evals[i].switched(),
                all_wf(keys@),
            decreases n - k,
        {
            let e = self.eval(&after_moving[k]);
            let p = e.switch_sides();
            keys.push(p.equity());
            probs.push(p);
            proof {
                evals = evals.push(e);
            }
            k = k + 1;
        }
        assert forall|i: int| 0 <= i < n implies keys@[i] == #[trigger] switched_equities(evals)[i] by {
            assert(keys@[i] == probs@[i].equity_spec());
        }
        assert(keys@ =~= switched_equities(evals));
        let order = rank_descending(&keys);
        let mut ranked: Vec<(B, Probabilities)> = Vec::new();
        let mut a: usize = 0;
        while a < n
            invariant
                n == after_moving@.len(),
                n == probs@.len(),
                n == keys@.len(),
                after_moving@ == successors(*position, *dice),
                evals.len() == n,
                a <= n,
                is_ranking(keys@, order@),
                forall|i: int| 0 <= i < n ==> (#[trigger] probs@[i]).wf() && keys@[i] == probs@[i].equity_spec()
                    && probs@[i] == evals[i].switched(),
                ranked@.len() == a,
                forall|c: int| 0 <= c < a ==> (#[trigger] ranked@[c]).1 == probs@[order@[c] as int]
                    && ranked@[c].0 == after_moving@[order@[c] as int].switched(),
            decreases n - a,
        {
            let i = order[a];
            ranked.push((after_moving[i].switch_sides(), probs[i]));
            a = a + 1;
        }
        proof {
            assert forall|c: int, d: int|
                0 <= c < d < ranked@.len() implies at_most((#[trigger] ranked@[d]).1.equity_spec(), (#[trigger] ranked@[c]).1.equity_spec()) by {
                assert(ranks_before(keys@, order@[c] as int, order@[d] as int));
            }
            assert(is_ranking(switched_equities(evals), order@));
        }
        ranked
    }
}

/// Evaluates every position with random probabilities; each call gives new
/// values.
pub struct RandomEvaluator {}

/// Resolution of a random weight: each weight is a multiple of one part in
/// this many.
pub const WEIGHT_SCALE: u32 = 16777216;

/// Six draws, each below `WEIGHT_SCALE`.
pub open spec fn random_draws(d: Seq<u32>) -> bool {
    d.len() == 6 && forall|i: int| 0 <= i < 6 ==> #[trigger] d[i] < WEIGHT_SCALE
}

/// The distribution of six draws: their proportions, or even odds when all
/// six are zero.
pub open spec fn draws_distribution(d: Seq<u32>) -> Probabilities {
    if sum6(d) > 0 {
        Probabilities::new_spec(d)
    } else {
        Probabilities::new_spec(seq![1u32, 1, 1, 1, 1, 1])
    }
}

impl RandomEvaluator {
    /// The distribution made of six drawn weights, in the order win normal,
    /// win gammon, win backgammon, lose normal, lose gammon, lose backgammon.
    /// Six zero draws have no proportions: they give even odds.
    pub fn from_draws(draws: &[u32; 6]) -> (p: Probabilities)
        ensures
            p.wf(),
            p == draws_distribution(draws@),
    {
        let sum = draws[0] as u64 + draws[1] as u64 + draws[2] as u64 + draws[3] as u64
            + draws[4] as u64 + draws[5] as u64;
        if sum > 0 {
            Probabilities::new(draws)
        } else {
            Probabilities::new(&[1, 1, 1, 1, 1, 1])
        }
    }
}

impl<B: Board> Evaluator<B> for RandomEvaluator {
    /// Any distribution made of six draws below `WEIGHT_SCALE`.
    open spec fn evaluates(&self, pos: B, p: Probabilities) -> bool {
        exists|d: Seq<u32>| #[trigger] random_draws(d) && p == draws_distribution(d)
    }

    /// Six independent weights, each uniform over the multiples of
    /// `1 / WEIGHT_SCALE` in `[0, 1)`, normalised by their sum.
    fn eval(&self, pos: &B) -> (p: Probabilities) {
        let draws: [u32; 6] = [
            random_below(WEIGHT_SCALE),
            random_below(WEIGHT_SCALE),
            random_below(WEIGHT_SCALE),
            random_below(WEIGHT_SCALE),
            random_below(WEIGHT_SCALE),
            random_below(WEIGHT_SCALE),
        ];
        let p = RandomEvaluator::from_draws(&draws);
        assert(random_draws(draws@) && p == draws_distribution(draws@));
        p
    }
}

/// Equities of a sequence of distributions.
pub open spec fn equities(probs: Seq<Probabilities>) -> Seq<Fraction> {
    Seq::new(probs.len(), |i: int| probs[i].equity_spec())
}

/// Equities of a sequence of distributions after switching sides.
pub open spec fn switched_equities(probs: Seq<Probabilities>) -> Seq<Fraction> {
    Seq::new(probs.len(), |i: int| probs[i].switched().equity_spec())
}

/// Switching sides reverses the order of equities.
pub proof fn lemma_switch_reverses_equity_order(p: Probabilities, q: Probabilities)
    requires
        p.wf(),
        q.wf(),
    ensures
        p.switched().equity_spec().less(q.switched().equity_spec()) == q.equity_spec().less(
            p.equity_spec(),
        ),
        p.equity_spec().wf(),
        p.switched().equity_spec().wf(),
{
    let (a, b, c, d) = (p.equity_num(), p.total_spec(), q.equity_num(), q.total_spec());
    assert((-a) * d < (-c) * b <==> c * b < a * d) by (nonlinear_arith);
}

/// The best move by equity and the ranked list of moves agree: given the
/// distributions of all candidates (from the opponent's side, as evaluated),
/// the first entry of the ranking of their switched distributions is the
/// first candidate of lowest equity, the one the choice by equity takes.
pub proof fn lemma_ranking_head_is_best_by_equity(probs: Seq<Probabilities>, order: Seq<usize>)
    requires
        probs.len() > 0,
        forall|i: int| 0 <= i < probs.len() ==> (#[trigger] probs[i]).wf(),
        is_ranking(switched_equities(probs), order),
    ensures
        is_first_min(equities(probs), order[0] as int),
{
    let e = equities(probs);
    let s = switched_equities(probs);
    let r0 = order[0] as int;
    assert(lists(order, r0));
    assert forall|j: int| 0 <= j < e.len() implies at_most(e[r0], #[trigger] e[j]) && (j < r0 ==> (
    e[j].less(e[r0]) == false && e[r0].less(e[j]))) by {
        assert(lists(order, j));
        let b = choose|b: int| 0 <= b < order.len() && order[b] == j;
        lemma_switch_reverses_equity_order(probs[j], probs[r0]);
        lemma_switch_reverses_equity_order(probs[r0], probs[j]);
        if b != 0 {
            assert(ranks_before(s, order[0] as int, order[b] as int));
        }
    }
}

/// The ranked list and the best move by equity agree: for the same
/// evaluations of the candidates, the candidate behind the first entry of the
/// ranking is one that `best_position_by_equity` may return. A candidate that
/// is an immediate loss is taken without evaluation, so that case stands
/// apart.
pub proof fn lemma_ranked_head_is_best_move<B: Board, E: Evaluator<B>>(
    ev: E,
    cands: Seq<B>,
    evals: Seq<Probabilities>,
    order: Seq<usize>,
)
    requires
        cands.len() > 0,
        cands.len() == 1 || !any_lost(cands),
        evaluations(judge(ev), cands, evals),
        is_ranking(switched_equities(evals), order),
    ensures
        worst_by_equity(judge(ev), cands, order[0] as int),
{
    lemma_ranking_head_is_best_by_equity(evals, order);
    assert(order[0] < cands.len());
    assert(evaluations(judge(ev), cands, evals) && is_first_min(equities(evals), order[0] as int));
}

} // verus!
