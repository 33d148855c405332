use rollout_eval::board::{Board, Dice, GameState};
use rollout_eval::evaluator::{Evaluator, PartialEvaluator, RandomEvaluator};
use rollout_eval::game_result::GameResult;
use rollout_eval::probabilities::Probabilities;
use rollout_eval::rollout::{DiceGen, FastrandDice, RolloutEvaluator};
use std::cell::Cell;
use std::collections::HashSet;

const X_BAR: usize = 25;
const O_BAR: usize = 0;

/// Board double: points 1 to 24 from the side of player `x` on move, `x`
/// moving down, the opponent `o` as negative counts; `x`'s bar at 25,
/// `o`'s at 0.
#[derive(Clone, Debug, PartialEq, Eq, Hash)]
struct Pos {
    pips: [i8; 26],
    x_off: u8,
    o_off: u8,
}

fn pos(x: &[(usize, i8)], o: &[(usize, i8)]) -> Pos {
    let mut pips = [0i8; 26];
    let mut x_on = 0;
    let mut o_on = 0;
    for &(p, n) in x {
        pips[p] += n;
        x_on += n;
    }
    for &(p, n) in o {
        pips[p] -= n;
        o_on += n;
    }
    Pos { pips, x_off: (15 - x_on) as u8, o_off: (15 - o_on) as u8 }
}

fn starting() -> Pos {
    pos(&[(24, 2), (13, 5), (8, 3), (6, 5)], &[(1, 2), (12, 5), (17, 3), (19, 5)])
}

impl Pos {
    fn step(&self, from: usize, to: usize) -> Pos {
        let mut p = self.clone();
        p.pips[from] -= 1;
        if p.pips[to] == -1 {
            p.pips[to] = 0;
            p.pips[O_BAR] -= 1;
        }
        p.pips[to] += 1;
        p
    }

    fn bear_off(&self, from: usize) -> Pos {
        let mut p = self.clone();
        p.pips[from] -= 1;
        p.x_off += 1;
        p
    }

    fn moves_with_die(&self, die: usize) -> Vec<Pos> {
        let mut out = Vec::new();
        if self.pips[X_BAR] > 0 {
            let to = 25 - die;
            if self.pips[to] >= -1 {
                out.push(self.step(X_BAR, to));
            }
            return out;
        }
        let all_home = (7..=24).all(|i| self.pips[i] <= 0);
        for from in (1..=24).rev() {
            if self.pips[from] <= 0 {
                continue;
            }
            if from > die {
                let to = from - die;
                if self.pips[to] >= -1 {
                    out.push(self.step(from, to));
                }
            } else if all_home && (from == die || (from + 1..=24).all(|i| self.pips[i] <= 0)) {
                out.push(self.bear_off(from));
            }
        }
        out
    }

    /// Positions after using the dice of `order` one after another, as far
    /// as they can be used, with the number used.
    fn play(&self, order: &[usize]) -> (usize, Vec<Pos>) {
        let mut level = vec![self.clone()];
        let mut used = 0;
        for &die in order {
            let mut next = Vec::new();
            let mut seen = HashSet::new();
            for p in &level {
                for q in p.moves_with_die(die) {
                    if seen.insert(q.clone()) {
                        next.push(q);
                    }
                }
            }
            if next.is_empty() {
                break;
            }
            level = next;
            used += 1;
        }
        (used, level)
    }
}

impl Board for Pos {
    fn successor_count(&self, dice: Dice) -> usize {
        self.all_positions_after_moving(&dice).len()
    }

    fn successor(&self, dice: Dice, i: usize) -> Pos {
        self.all_positions_after_moving(&dice)[i].clone()
    }

    fn switched(&self) -> Pos {
        self.switch_sides()
    }

    fn lost(&self) -> bool {
        self.has_lost()
    }

    fn state(&self) -> GameState {
        self.game_state()
    }

    fn all_positions_after_moving(&self, dice: &Dice) -> Vec<Pos> {
        let (a, b) = (dice.die1 as usize, dice.die2 as usize);
        let plays = if a == b {
            vec![self.play(&[a, a, a, a])]
        } else {
            let (hi, lo) = if a > b { (a, b) } else { (b, a) };
            vec![self.play(&[hi, lo]), self.play(&[lo, hi])]
        };
        let most = plays.iter().map(|(used, _)| *used).max().unwrap();
        let mut result = Vec::new();
        let mut seen = HashSet::new();
        for (used, positions) in plays {
            if used == most && (most > 0 || result.is_empty()) {
                for p in positions {
                    if seen.insert(p.clone()) {
                        result.push(p);
                    }
                }
                // With one die usable, the larger one is played if it can be.
                if most == 1 && a != b {
                    break;
                }
            }
        }
        result.iter().map(|p| p.switch_sides()).collect()
    }

    fn switch_sides(&self) -> Pos {
        let mut pips = [0i8; 26];
        for i in 0..26 {
            pips[i] = -self.pips[25 - i];
        }
        Pos { pips, x_off: self.o_off, o_off: self.x_off }
    }

    fn has_lost(&self) -> bool {
        self.o_off == 15
    }

    fn game_state(&self) -> GameState {
        if self.o_off == 15 {
            GameState::GameOver(if self.x_off > 0 {
                GameResult::LoseNormal
            } else if (19..=25).any(|i| self.pips[i] > 0) {
                GameResult::LoseBg
            } else {
                GameResult::LoseGammon
            })
        } else if self.x_off == 15 {
            GameState::GameOver(if self.o_off > 0 {
                GameResult::WinNormal
            } else if (0..=6).any(|i| self.pips[i] < 0) {
                GameResult::WinBg
            } else {
                GameResult::WinGammon
            })
        } else {
            GameState::Ongoing
        }
    }
}

/// Dice handed out from a fixed list, each exactly once.
struct DiceGenMock {
    dice: Vec<(u8, u8)>,
    next: usize,
}

impl DiceGenMock {
    fn new(dice: &[(u8, u8)]) -> DiceGenMock {
        DiceGenMock { dice: dice.to_vec(), next: 0 }
    }

    fn assert_all_dice_were_used(&self) {
        assert_eq!(self.next, self.dice.len(), "not all dice were used");
    }
}

impl DiceGen for DiceGenMock {
    fn roll(&mut self) -> Dice {
        assert!(self.next < self.dice.len(), "more dice were asked for than given");
        let (a, b) = self.dice[self.next];
        self.next += 1;
        Dice::new(a, b)
    }
}

fn dice(pairs: &[(u8, u8)]) -> Vec<Dice> {
    pairs.iter().map(|&(a, b)| Dice::new(a, b)).collect()
}

fn position_with_lowest_equity() -> Pos {
    pos(&[(5, 1), (3, 1)], &[(20, 2)]).switch_sides()
}

/// Returns not so good probabilities for one position, better ones for every
/// other position.
struct EvaluatorFake {}

impl Evaluator<Pos> for EvaluatorFake {
    fn evaluates(&self, pos: Pos, p: Probabilities) -> bool {
        self.eval(&pos) == p
    }

    fn eval(&self, pos: &Pos) -> Probabilities {
        if pos == &position_with_lowest_equity() {
            Probabilities::new(&[50, 10, 10, 10, 10, 10])
        } else {
            Probabilities::new(&[38, 20, 10, 12, 10, 10])
        }
    }
}

/// Prefers one position and counts its calls.
struct CountingEvaluator {
    preferred: Pos,
    calls: Cell<usize>,
}

impl Evaluator<Pos> for CountingEvaluator {
    fn evaluates(&self, pos: Pos, p: Probabilities) -> bool {
        p == if pos == self.preferred {
            Probabilities::new(&[0, 0, 0, 0, 0, 1])
        } else {
            Probabilities::new(&[1, 0, 0, 0, 0, 0])
        }
    }

    fn eval(&self, pos: &Pos) -> Probabilities {
        self.calls.set(self.calls.get() + 1);
        if pos == &self.preferred {
            Probabilities::new(&[0, 0, 0, 0, 0, 1])
        } else {
            Probabilities::new(&[1, 0, 0, 0, 0, 0])
        }
    }
}

#[test]
fn best_position_by_equity() {
    let given_pos = pos(&[(7, 2)], &[(20, 2)]);
    let evaluator = EvaluatorFake {};
    let best_pos = evaluator.best_position_by_equity(&given_pos, &Dice::new(4, 2));
    assert_eq!(best_pos, position_with_lowest_equity());
}

#[test]
fn best_position_for_1ptr() {
    let given_pos = pos(&[(7, 2)], &[(20, 2)]);
    let evaluator = EvaluatorFake {};
    let best_pos = evaluator.best_position(&given_pos, &Dice::new(4, 2), |p: &Probabilities| p.win());
    let expected = pos(&[(7, 1), (1, 1)], &[(20, 2)]);
    assert_eq!(best_pos, expected.switch_sides());
}

#[test]
fn positions_and_probabilities_by_equity() {
    let given_pos = pos(&[(7, 2)], &[(20, 2)]);
    let evaluator = EvaluatorFake {};
    let values = evaluator.positions_and_probabilities_by_equity(&given_pos, &Dice::new(4, 2));
    let (best_pos, best_probability) = values.first().unwrap();
    let best_pos = best_pos.switch_sides();
    assert_eq!(
        best_pos.clone(),
        evaluator.best_position_by_equity(&given_pos, &Dice::new(4, 2))
    );
    assert_eq!(best_probability.switch_sides(), evaluator.eval(&best_pos));
}

#[test]
fn ranked_positions_run_from_best_to_worst() {
    let given_pos = pos(&[(7, 2)], &[(20, 2)]);
    let evaluator = EvaluatorFake {};
    let values = evaluator.positions_and_probabilities_by_equity(&given_pos, &Dice::new(4, 2));
    assert_eq!(values.len(), 2);
    assert!(!values[0].1.equity().lt(&values[1].1.equity()));
    assert_eq!(values[0].0, pos(&[(5, 1), (3, 1)], &[(20, 2)]));
    assert_eq!(values[1].0, pos(&[(7, 1), (1, 1)], &[(20, 2)]));
}

#[test]
fn sum_is_1() {
    let evaluator = RandomEvaluator {};
    let p = evaluator.eval(&starting());
    let sum = (p.win_normal as f64
        + p.win_gammon as f64
        + p.win_bg as f64
        + p.lose_normal as f64
        + p.lose_gammon as f64
        + p.lose_bg as f64)
        / p.total() as f64;
    assert!((sum - 1.0).abs() < 0.0001);
}

#[test]
fn full_evaluator_always_evaluates_partially() {
    let evaluator = EvaluatorFake {};
    let p = evaluator.try_eval(&position_with_lowest_equity());
    assert_eq!(p, Some(Probabilities::new(&[50, 10, 10, 10, 10, 10])));
}

#[test]
fn single_candidate_is_taken_without_evaluation() {
    let start = pos(&[(1, 1)], &[(20, 2)]);
    let evaluator = CountingEvaluator { preferred: start.clone(), calls: Cell::new(0) };
    let candidates = start.all_positions_after_moving(&Dice::new(6, 5));
    assert_eq!(candidates.len(), 1);
    let best = evaluator.best_position_by_equity(&start, &Dice::new(6, 5));
    assert_eq!(best, candidates[0].clone());
    assert_eq!(evaluator.calls.get(), 0);
}

#[test]
fn immediate_loss_is_taken_without_evaluation() {
    let ongoing = pos(&[(3, 1)], &[(20, 2)]);
    let lost = pos(&[(3, 1)], &[]);
    assert!(lost.has_lost());
    let candidates = vec![ongoing.clone(), lost.clone(), lost.clone()];
    let evaluator = CountingEvaluator { preferred: ongoing, calls: Cell::new(0) };
    let chosen = evaluator.worst_position(&candidates, |p: &Probabilities| p.equity());
    assert_eq!(chosen, 1);
    assert_eq!(evaluator.calls.get(), 0);
}

#[test]
fn lowest_value_is_chosen_after_evaluation() {
    let a = pos(&[(3, 1)], &[(20, 2)]);
    let b = pos(&[(4, 1)], &[(20, 2)]);
    let evaluator = CountingEvaluator { preferred: b.clone(), calls: Cell::new(0) };
    let chosen = evaluator.worst_position(&vec![a.clone(), b, a], |p: &Probabilities| p.equity());
    assert_eq!(chosen, 1);
    assert_eq!(evaluator.calls.get(), 3);
}

#[test]
fn correct_results_after_first_or_second_half_move() {
    let rollout_eval = RolloutEvaluator { evaluator: RandomEvaluator {} };
    let pos = pos(&[(6, 1)], &[(19, 1)]);
    let results = rollout_eval.eval(&pos);
    assert_eq!(results.win_normal as f64 / results.total() as f64, 0.8125);
    assert_eq!(results.lose_normal as f64 / results.total() as f64, 0.1875);
}

#[test]
fn rollout_always_lose_gammon() {
    let rollout_eval = RolloutEvaluator { evaluator: RandomEvaluator {} };
    let pos = pos(&[(17, 15)], &[(24, 8)]);
    let results = rollout_eval.eval(&pos);
    assert_eq!(results.lose_gammon as f64 / results.total() as f64, 1.0);
}

#[test]
fn rollout_always_win_bg() {
    let rollout_eval = RolloutEvaluator { evaluator: RandomEvaluator {} };
    let pos = pos(&[(1, 8)], &[(2, 15)]);
    let results = rollout_eval.eval(&pos);
    assert_eq!(results.win_bg as f64 / results.total() as f64, 1.0);
}

#[test]
fn rollout_counts_every_game_once() {
    let rollout_eval = RolloutEvaluator { evaluator: EvaluatorFake {} };
    let histogram = rollout_eval.histogram(&pos(&[(6, 1)], &[(19, 1)]), &mut FastrandDice::new());
    let counts = histogram.unwrap();
    assert_eq!(counts.iter().sum::<u32>(), 1296);
    assert_eq!(counts, [1053, 0, 0, 243, 0, 0]);
}

#[test]
fn single_rollout_win_normal() {
    let rollout_eval = RolloutEvaluator { evaluator: RandomEvaluator {} };
    let pos = pos(&[(12, 1)], &[(13, 1)]);
    let mut dice_gen = DiceGenMock::new(&[(2, 1), (2, 1)]);
    let result = rollout_eval.single_rollout(&pos, &dice(&[(4, 5)]), &mut dice_gen);
    dice_gen.assert_all_dice_were_used();
    assert_eq!(result, Some(GameResult::WinNormal));
}

#[test]
fn single_rollout_lose_normal() {
    let rollout_eval = RolloutEvaluator { evaluator: RandomEvaluator {} };
    let pos = pos(&[(12, 1)], &[(13, 1)]);
    let mut dice_gen = DiceGenMock::new(&[(2, 1), (2, 1)]);
    let result = rollout_eval.single_rollout(&pos, &dice(&[(1, 2), (4, 5)]), &mut dice_gen);
    dice_gen.assert_all_dice_were_used();
    assert_eq!(result, Some(GameResult::LoseNormal));
}

#[test]
fn single_rollout_win_gammon() {
    let rollout_eval = RolloutEvaluator { evaluator: RandomEvaluator {} };
    let pos = pos(&[(1, 4)], &[(12, 15)]);
    let result = rollout_eval.single_rollout(&pos, &dice(&[(2, 2)]), &mut FastrandDice::new());
    assert_eq!(result, Some(GameResult::WinGammon));
}

#[test]
fn single_rollout_lose_gammon() {
    let rollout_eval = RolloutEvaluator { evaluator: RandomEvaluator {} };
    let pos = pos(&[(12, 15)], &[(24, 1)]);
    let result =
        rollout_eval.single_rollout(&pos, &dice(&[(2, 1), (3, 3)]), &mut FastrandDice::new());
    assert_eq!(result, Some(GameResult::LoseGammon));
}

#[test]
fn single_rollout_win_bg() {
    let rollout_eval = RolloutEvaluator { evaluator: RandomEvaluator {} };
    let pos = pos(&[(24, 1)], &[(1, 15)]);
    let result = rollout_eval.single_rollout(&pos, &dice(&[(6, 6)]), &mut FastrandDice::new());
    assert_eq!(result, Some(GameResult::WinBg));
}

#[test]
fn single_rollout_lose_bg() {
    let rollout_eval = RolloutEvaluator { evaluator: RandomEvaluator {} };
    let pos = pos(&[(24, 15)], &[(1, 1)]);
    let result =
        rollout_eval.single_rollout(&pos, &dice(&[(1, 2), (6, 6)]), &mut FastrandDice::new());
    assert_eq!(result, Some(GameResult::LoseBg));
}
