use vstd::prelude::*;

verus! {

/// The six ways a game can end, seen from one player.
#[derive(Clone, Copy, Debug, PartialEq, Eq, Structural)]
pub enum GameResult {
    WinNormal,
    WinGammon,
    WinBg,
    LoseNormal,
    LoseGammon,
    LoseBg,
}

/// The same ending seen by the other player: win and loss trade places,
/// the magnitude stays.
pub open spec fn reversed(r: GameResult) -> GameResult {
    match r {
        GameResult::WinNormal => GameResult::LoseNormal,
        GameResult::WinGammon => GameResult::LoseGammon,
        GameResult::WinBg => GameResult::LoseBg,
        GameResult::LoseNormal => GameResult::WinNormal,
        GameResult::LoseGammon => GameResult::WinGammon,
        GameResult::LoseBg => GameResult::WinBg,
    }
}

/// Bucket of a result in a six-entry histogram.
pub open spec fn bucket(r: GameResult) -> nat {
    match r {
        GameResult::WinNormal => 0,
        GameResult::WinGammon => 1,
        GameResult::WinBg => 2,
        GameResult::LoseNormal => 3,
        GameResult::LoseGammon => 4,
        GameResult::LoseBg => 5,
    }
}

/// A game that ends on the move with the given number of completed half-moves
/// (the final one included) ends on a board shown from the side of the player
/// who started when that number is even, and from the opponent's side when it
/// is odd.
pub open spec fn seen_by_starter(r: GameResult, completed_plies: nat) -> GameResult {
    if completed_plies % 2 == 1 {
        reversed(r)
    } else {
        r
    }
}

impl GameResult {
    pub fn reverse(self) -> (r: GameResult)
        ensures
            r == reversed(self),
    {
        match self {
            GameResult::WinNormal => GameResult::LoseNormal,
            GameResult::WinGammon => GameResult::LoseGammon,
            GameResult::WinBg => GameResult::LoseBg,
            GameResult::LoseNormal => GameResult::WinNormal,
            GameResult::LoseGammon => GameResult::WinGammon,
            GameResult::LoseBg => GameResult::WinBg,
        }
    }

    /// Position of this result in a six-entry histogram.
    pub fn index(self) -> (i: usize)
        ensures
            i == bucket(self),
            i < 6,
    {
        match self {
            GameResult::WinNormal => 0,
            GameResult::WinGammon => 1,
            GameResult::WinBg => 2,
            GameResult::LoseNormal => 3,
            GameResult::LoseGammon => 4,
            GameResult::LoseBg => 5,
        }
    }
}

/// Translates the result found on the board after the last move of a simulated
/// game into the view of the player who moved first. `ply` is the 0-based index
/// of that last move: since every move hands the board to the other side, an
/// even index means the board shows the opponent of the starter.
pub fn result_for_starter(result: GameResult, ply: u64) -> (r: GameResult)
    ensures
        r == seen_by_starter(result, ply as nat + 1),
{
    if ply % 2 == 0 {
        result.reverse()
    } else {
        result
    }
}

/// Reversing a result twice gives it back.
pub proof fn lemma_reverse_involution(r: GameResult)
    ensures
        reversed(reversed(r)) == r,
{
}

/// A result found after an odd number of completed half-moves, once reversed,
/// is the result as the starting player sees it; after an even number it
/// already is. Reading the starter's result back into the last board's view
/// restores the raw result.
pub proof fn lemma_parity_normalization(r: GameResult, completed_plies: nat)
    ensures
        completed_plies % 2 == 1 ==> seen_by_starter(r, completed_plies) == reversed(r),
        completed_plies % 2 == 0 ==> seen_by_starter(r, completed_plies) == r,
        seen_by_starter(seen_by_starter(r, completed_plies), completed_plies) == r,
{
}

} // verus!
