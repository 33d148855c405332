use vstd::prelude::*;
use crate::game_result::GameResult;

verus! {

/// An ordered pair of die faces. The order matters when the faces differ:
/// it decides which half of the move uses which face.
#[derive(Clone, Copy, Debug, PartialEq, Eq, Hash, Structural)]
pub struct Dice {
    pub die1: u8,
    pub die2: u8,
}

impl Dice {
    pub open spec fn wf(self) -> bool {
        1 <= self.die1 <= 6 && 1 <= self.die2 <= 6
    }

    pub fn new(die1: u8, die2: u8) -> (d: Dice)
        requires
            1 <= die1 <= 6,
            1 <= die2 <= 6,
        ensures
            d.die1 == die1,
            d.die2 == die2,
            d.wf(),
    {
        Dice { die1, die2 }
    }
}

/// Whether a game goes on, and how it ended.
#[derive(Clone, Copy, Debug, PartialEq, Eq, Structural)]
pub enum GameState {
    Ongoing,
    GameOver(GameResult),
}

/// Every legal position after moving with `dice`, already seen from the
/// opponent's side; the unchanged position (switched) when no move is legal.
pub open spec fn successors<B: Board>(b: B, dice: Dice) -> Seq<B> {
    Seq::new(b.successor_count(dice) as nat, |i: int| b.successor(dice, i as usize))
}

/// A board, always seen from the side of the player on move. Its spec
/// functions model the board as a value: what each operation gives depends on
/// the board (and the dice) alone.
pub trait Board: Sized {
    /// How many legal positions follow a move with `dice`.
    spec fn successor_count(&self, dice: Dice) -> usize;

    /// The `i`-th legal position after moving with `dice`.
    spec fn successor(&self, dice: Dice, i: usize) -> Self;

    /// The same board seen by the other player.
    spec fn switched(&self) -> Self;

    /// The opponent has already borne off all checkers.
    spec fn lost(&self) -> bool;

    spec fn state(&self) -> GameState;

    fn all_positions_after_moving(&self, dice: &Dice) -> (r: Vec<Self>)
        ensures
            r@.len() == self.successor_count(*dice),
            forall|i: int| 0 <= i < r@.len() ==> #[trigger] r@[i] == self.successor(*dice, i as usize),
            r@.len() > 0,
    ;

    fn switch_sides(&self) -> (r: Self)
        ensures
            r == self.switched(),
    ;

    fn has_lost(&self) -> (r: bool)
        ensures
            r == self.lost(),
    ;

    fn game_state(&self) -> (r: GameState)
        ensures
            r == self.state(),
    ;
}

} // verus!
