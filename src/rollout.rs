use vstd::prelude::*;
use crate::board::{successors, Board, Dice, GameState};
use crate::evaluator::{judge, worst_by_equity, Evaluator};
use crate::game_result::{bucket, result_for_starter, seen_by_starter, GameResult};
use crate::probabilities::{sum6, Probabilities};
use crate::random::random_below;

verus! {

/// A source of dice for the moves of a simulated game.
pub trait DiceGen {
    fn roll(&mut self) -> (d: Dice)
        ensures
            d.wf(),
    ;
}

/// Dice drawn from the thread-local random generator.
pub struct FastrandDice {}

impl FastrandDice {
    pub fn new() -> FastrandDice {
        FastrandDice {  }
    }
}

impl DiceGen for FastrandDice {
    fn roll(&mut self) -> (d: Dice) {
        let die1 = random_below(6) as u8 + 1;
        let die2 = random_below(6) as u8 + 1;
        Dice::new(die1, die2)
    }
}

/// Number of ways to throw the first two rolls of a game: four faces of six.
pub const COMBINATIONS: usize = 1296;

/// Number of a pair of first rolls in the enumeration, the four faces read as
/// the digits of a number in base six.
pub open spec fn combination_index(first: Dice, second: Dice) -> int {
    (first.die1 - 1) * 216 + (first.die2 - 1) * 36 + (second.die1 - 1) * 6 + (second.die2 - 1)
}

/// The `k`-th pair of first rolls: the digits of `k` in base six, each plus one.
pub open spec fn nth_rolls(k: int) -> (Dice, Dice) {
    (
        Dice { die1: (k / 6 / 6 / 6 + 1) as u8, die2: (k / 6 / 6 % 6 + 1) as u8 },
        Dice { die1: (k / 6 % 6 + 1) as u8, die2: (k % 6 + 1) as u8 },
    )
}

/// The `k`-th pair of first rolls of the enumeration.
pub fn first_two_rolls(k: usize) -> (r: (Dice, Dice))
    requires
        k < COMBINATIONS,
    ensures
        r == nth_rolls(k as int),
        r.0.wf(),
        r.1.wf(),
        combination_index(r.0, r.1) == k,
{
    let die4 = k % 6;
    let q1 = k / 6;
    let die3 = q1 % 6;
    let q2 = q1 / 6;
    let die2 = q2 % 6;
    let die1 = q2 / 6;
    (Dice::new(die1 as u8 + 1, die2 as u8 + 1), Dice::new(die3 as u8 + 1, die4 as u8 + 1))
}

/// The enumeration of first rolls meets every pair of rolls exactly once:
/// every pair has a number below `COMBINATIONS`, and pairs with the same
/// number are the same.
pub proof fn lemma_combinations_exhaustive(a: Dice, b: Dice, c: Dice, d: Dice)
    requires
        a.wf(),
        b.wf(),
        c.wf(),
        d.wf(),
    ensures
        0 <= combination_index(a, b) < COMBINATIONS,
        combination_index(a, b) == combination_index(c, d) ==> a == c && b == d,
{
}

/// The dice of half-move `ply`: taken from the given first dice while they
/// last, else `None`, meaning that they are to be rolled.
pub fn forced_dice(first_dice: &Vec<Dice>, ply: u64) -> (r: Option<Dice>)
    ensures
        ply < first_dice@.len() ==> r == Some(first_dice@[ply as int]),
        ply >= first_dice@.len() ==> r is None,
{
    if ply < first_dice.len() as u64 {
        Some(first_dice[ply as usize])
    } else {
        None
    }
}

/// Counts one more game in the bucket of its result.
pub fn record(histogram: &mut [u32; 6], result: GameResult)
    requires
        old(histogram)@[bucket(result) as int] < u32::MAX,
    ensures
        final(histogram)@ == old(histogram)@.update(
            bucket(result) as int,
            (old(histogram)@[bucket(result) as int] + 1) as u32,
        ),
{
    let i = result.index();
    let v = histogram[i] + 1;
    histogram[i] = v;
}

/// The position before half-move `k` of a game from `from` whose positions
/// after each half-move are `game`.
pub open spec fn before<B: Board>(from: B, game: Seq<B>, k: int) -> B {
    if k == 0 {
        from
    } else {
        game[k - 1]
    }
}

/// `next` follows `prev` by the move that `ev` finds best by equity.
pub open spec fn greedy_step<B: Board, E: Evaluator<B>>(ev: E, prev: B, dice: Dice, next: B) -> bool {
    exists|i: int| worst_by_equity(judge(ev), successors(prev, dice), i) && next == successors(prev, dice)[i]
}

/// `game` lists the positions after each half-move of a game from `from` in
/// which both sides play the move that `ev` finds best by equity: half-move
/// `k` uses `dice[k]`, which is `first_dice[k]` while those last, and every
/// position but the last is ongoing.
pub open spec fn greedy_game<B: Board, E: Evaluator<B>>(
    ev: E,
    from: B,
    first_dice: Seq<Dice>,
    dice: Seq<Dice>,
    game: Seq<B>,
) -> bool {
    &&& game.len() > 0
    &&& dice.len() == game.len()
    &&& forall|k: int| 0 <= k < game.len() && k < first_dice.len() ==> #[trigger] dice[k] == first_dice[k]
    &&& forall|k: int| 0 <= k < game.len() ==> greedy_step(ev, before(from, game, k), dice[k], #[trigger] game[k])
    &&& forall|k: int| 0 <= k < game.len() - 1 ==> (#[trigger] game[k]).state() is Ongoing
}

/// `g` is the result, from the side of the player on move at `from`, of a
/// greedy game that ended.
pub open spec fn rollout_result<B: Board, E: Evaluator<B>>(ev: E, from: B, first_dice: Seq<Dice>, g: GameResult) -> bool {
    exists|dice: Seq<Dice>, game: Seq<B>|
        #[trigger] greedy_game(ev, from, first_dice, dice, game) && game.last().state() is GameOver
            && g == seen_by_starter(game.last().state()->GameOver_0, game.len() as nat)
}

/// A greedy game from `from` goes on after more half-moves than a `u64`
/// counts.
pub open spec fn outlasts_counter<B: Board, E: Evaluator<B>>(ev: E, from: B, first_dice: Seq<Dice>) -> bool {
    exists|dice: Seq<Dice>, game: Seq<B>|
        #[trigger] greedy_game(ev, from, first_dice, dice, game) && game.len() > u64::MAX
            && game.last().state() is Ongoing
}

/// The first dice of game `k` of a rollout.
pub open spec fn rollout_dice(k: int) -> Seq<Dice> {
    seq![nth_rolls(k).0, nth_rolls(k).1]
}

/// How many of `results` fall in bucket `b`.
pub open spec fn count_in(results: Seq<GameResult>, b: nat) -> nat
    decreases results.len(),
{
    if results.len() == 0 {
        0
    } else {
        count_in(results.drop_last(), b) + if bucket(results.last()) == b {
            1nat
        } else {
            0nat
        }
    }
}

/// `results[k]` is the result of greedy game `k` of a rollout, for the first
/// `results.len()` games.
pub open spec fn enumerated_results<B: Board, E: Evaluator<B>>(ev: E, pos: B, results: Seq<GameResult>) -> bool {
    forall|k: int| 0 <= k < results.len() ==> rollout_result(ev, pos, rollout_dice(k), #[trigger] results[k])
}

/// `h` counts, in the bucket of each result, the results of the
/// `COMBINATIONS` greedy games of a rollout from `pos`.
pub open spec fn rollout_counts<B: Board, E: Evaluator<B>>(ev: E, pos: B, h: Seq<u32>) -> bool {
    &&& h.len() == 6
    &&& sum6(h) == COMBINATIONS
    &&& exists|results: Seq<GameResult>|
        #[trigger] enumerated_results(ev, pos, results) && results.len() == COMBINATIONS
            && forall|b: int| 0 <= b < 6 ==> #[trigger] h[b] == count_in(results, b as nat)
}

/// Some game of a rollout from `pos` outlasts the count of half-moves.
pub open spec fn rollout_outlasts<B: Board, E: Evaluator<B>>(ev: E, pos: B) -> bool {
    exists|k: int| 0 <= k < COMBINATIONS && #[trigger] outlasts_counter(ev, pos, rollout_dice(k))
}

/// A greedy game that goes on extends by one more greedy half-move.
#[verifier::rlimit(60)]
pub proof fn lemma_greedy_game_extend<B: Board, E: Evaluator<B>>(
    ev: E,
    from: B,
    first_dice: Seq<Dice>,
    dice: Seq<Dice>,
    game: Seq<B>,
    d: Dice,
    next: B,
)
    requires
        greedy_game(ev, from, first_dice, dice, game),
        game.last().state() is Ongoing,
        greedy_step(ev, game.last(), d, next),
        game.len() < first_dice.len() ==> d == first_dice[game.len() as int],
    ensures
        greedy_game(ev, from, first_dice, dice.push(d), game.push(next)),
{
    let g2 = game.push(next);
    let d2 = dice.push(d);
    assert forall|k: int| 0 <= k < g2.len() implies greedy_step(ev, before(from, g2, k), d2[k], #[trigger] g2[k]) by {
        if k < game.len() {
            assert(g2[k] == game[k] && d2[k] == dice[k]);
            assert(before(from, g2, k) == before(from, game, k));
        } else {
            assert(before(from, g2, k) == game.last());
        }
    }
    assert forall|k: int| 0 <= k < g2.len() && k < first_dice.len() implies #[trigger] d2[k] == first_dice[k] by {
        if k < game.len() {
            assert(d2[k] == dice[k]);
        }
    }
    assert forall|k: int| 0 <= k < g2.len() - 1 implies (#[trigger] g2[k]).state() is Ongoing by {
        if k < game.len() - 1 {
            assert(g2[k] == game[k]);
        }
    }
}

/// Rolls out a position with a wrapped evaluator that picks the moves.
pub struct RolloutEvaluator<T> {
    pub evaluator: T,
}

impl<T> RolloutEvaluator<T> {
    /// Plays one game from `from` to its end, each side taking the move its
    /// inner evaluator finds best by equity. Half-move `i` uses
    /// `first_dice[i]` while those last, and dice from `dice_gen` after them.
    /// The result is seen from the side of the player on move at `from`.
    /// `None` only when the game outlasts a 64-bit count of half-moves.
    pub fn single_rollout<B: Board, U: DiceGen>(&self, from: &B, first_dice: &Vec<Dice>, dice_gen: &mut U) -> (r: Option<GameResult>)
        where
            T: Evaluator<B>,
        requires
            forall|i: int| 0 <= i < first_dice@.len() ==> (#[trigger] first_dice@[i]).wf(),
        ensures
            r matches Some(g) ==> rollout_result(self.evaluator, *from, first_dice@, g),
            r is None ==> outlasts_counter(self.evaluator, *from, first_dice@),
            first_dice@.len() > 0 && (forall|q: B| #[trigger] successors(*from, first_dice@[0]).contains(q) ==> q.state() is GameOver)
                ==> r is Some,
    {
        let mut ply: u64 = 0;
        let dice = match forced_dice(first_dice, ply) {
            Some(d) => d,
            None => dice_gen.roll(),
        };
        let mut pos = self.evaluator.best_position_by_equity(from, &dice);
        let ghost mut dice_seq: Seq<Dice> = seq![dice];
        let ghost mut game: Seq<B> = seq![pos];
        proof {
            let i = choose|i: int| worst_by_equity(judge(self.evaluator), successors(*from, dice), i) && pos == successors(*from, dice)[i];
            assert(successors(*from, dice).contains(pos));
            if first_dice@.len() > 0 {
                assert(dice == first_dice@[0]);
            }
            assert(before(*from, game, 0) == *from);
            assert(greedy_step(self.evaluator, before(*from, game, 0), dice_seq[0], game[0]));
            assert(greedy_game(self.evaluator, *from, first_dice@, dice_seq, game));
        }
        match pos.game_state() {
            GameState::GameOver(result) => {
                let g = result_for_starter(result, ply);
                assert(game.last().state()->GameOver_0 == result);
                return Some(g);
            },
            GameState::Ongoing => {},
        }
        loop
            invariant
                !(first_dice@.len() > 0 && (forall|q: B| #[trigger] successors(*from, first_dice@[0]).contains(q) ==> q.state() is GameOver)),
                greedy_game(self.evaluator, *from, first_dice@, dice_seq, game),
                game.len() == ply + 1,
                game.last() == pos,
                pos.state() is Ongoing,
            decreases u64::MAX - ply,
        {
            if ply == u64::MAX {
                return None;
            }
            ply = ply + 1;
            let dice = match forced_dice(first_dice, ply) {
                Some(d) => d,
                None => dice_gen.roll(),
            };
            let next = self.evaluator.best_position_by_equity(&pos, &dice);
            proof {
                let i = choose|i: int| worst_by_equity(judge(self.evaluator), successors(pos, dice), i) && next == successors(pos, dice)[i];
                assert(greedy_step(self.evaluator, pos, dice, next));
                lemma_greedy_game_extend(self.evaluator, *from, first_dice@, dice_seq, game, dice, next);
                game = game.push(next);
                dice_seq = dice_seq.push(dice);
            }
            pos = next;
            match pos.game_state() {
                GameState::GameOver(result) => {
                    let g = result_for_starter(result, ply);
                    assert(game.last().state()->GameOver_0 == result);
                    assert(greedy_game(self.evaluator, *from, first_dice@, dice_seq, game) && game.last().state() is GameOver
                        && g == seen_by_starter(game.last().state()->GameOver_0, game.len() as nat));
                    return Some(g);
                },
                GameState::Ongoing => {},
            }
        }
    }

    /// Outcome counts of a rollout: one game for each of the `COMBINATIONS`
    /// pairs of first rolls, in the order of the enumeration, later dice from
    /// `dice_gen`; each game is counted in the bucket of its result, so the
    /// counts add up to `COMBINATIONS`. `None` only when a game outlasts the
    /// count of half-moves (see `single_rollout`).
    pub fn histogram<B: Board, U: DiceGen>(&self, pos: &B, dice_gen: &mut U) -> (r: Option<[u32; 6]>)
        where
            T: Evaluator<B>,
        ensures
            r matches Some(h) ==> rollout_counts(self.evaluator, *pos, h@),
            r is None ==> rollout_outlasts(self.evaluator, *pos),
    {
        let mut histogram: [u32; 6] = [0, 0, 0, 0, 0, 0];
        let ghost mut results: Seq<GameResult> = Seq::empty();
        let mut k: usize = 0;
        while k < COMBINATIONS
            invariant
                k <= COMBINATIONS,
                sum6(histogram@) == k,
                forall|i: int| 0 <= i < 6 ==> #[trigger] histogram@[i] <= k,
                results.len() == k,
                enumerated_results(self.evaluator, *pos, results),
                forall|b: int| 0 <= b < 6 ==> #[trigger] histogram@[b] == count_in(results, b as nat),
            decreases COMBINATIONS - k,
        {
            let (first, second) = first_two_rolls(k);
            let first_dice: Vec<Dice> = vec![first, second];
            assert(first_dice@ =~= rollout_dice(k as int));
            let result = match self.single_rollout(pos, &first_dice, dice_gen) {
                Some(result) => result,
                None => {
                    assert(outlasts_counter(self.evaluator, *pos, rollout_dice(k as int)));
                    return None;
                },
            };
            let ghost old_hist = histogram@;
            record(&mut histogram, result);
            proof {
                let old_results = results;
                results = results.push(result);
                assert(results.drop_last() =~= old_results);
                assert forall|j: int| 0 <= j < results.len() implies rollout_result(self.evaluator, *pos, rollout_dice(j), #[trigger] results[j]) by {
                    if j < old_results.len() {
                        assert(results[j] == old_results[j]);
                    }
                }
                assert forall|b: int| 0 <= b < 6 implies #[trigger] histogram@[b] == count_in(results, b as nat) by {
                    assert(old_hist[b] == count_in(old_results, b as nat));
                }
            }
            k = k + 1;
        }
        Some(histogram)
    }
}

impl<B: Board, T: Evaluator<B>> Evaluator<B> for RolloutEvaluator<T> {
    /// The counts of a rollout, normalised; even odds when a game outlasts
    /// the count of half-moves, which no bound on the board rules out.
    open spec fn evaluates(&self, pos: B, p: Probabilities) -> bool {
        ||| exists|h: Seq<u32>| #[trigger] rollout_counts(self.evaluator, pos, h) && p == Probabilities::new_spec(h)
        ||| rollout_outlasts(self.evaluator, pos) && p == Probabilities::new_spec(seq![1u32, 1, 1, 1, 1, 1])
    }

    /// The distribution over the games of a rollout, later dice drawn at
    /// random.
    fn eval(&self, pos: &B) -> (p: Probabilities) {
        let mut dice_gen = FastrandDice::new();
        match self.histogram(pos, &mut dice_gen) {
            Some(counts) => {
                let p = Probabilities::new(&counts);
                assert(rollout_counts(self.evaluator, *pos, counts@) && p == Probabilities::new_spec(counts@));
                p
            },
            None => {
                let p = Probabilities::new(&[1, 1, 1, 1, 1, 1]);
                assert(p == Probabilities::new_spec(seq![1u32, 1, 1, 1, 1, 1]));
                p
            },
        }
    }
}

} // verus!
