use vstd::prelude::*;

use crate::chess_types::Color;
use crate::pairing_system::PairingError;
use crate::player::{Player, PlayerId};
use crate::tournament::Tournament;

verus! {

/// One game of a round: `right == None` means `left` has a bye.
#[derive(Debug, Clone, Copy, PartialEq, Eq, Structural)]
pub struct Pairing {
    pub left: PlayerId,
    pub right: Option<PlayerId>,
    pub color_left: Color,
    pub color_right: Color,
}

impl Pairing {
    pub fn new(left: PlayerId, right: Option<PlayerId>, color_left: Color, color_right: Color) -> (r:
        Pairing)
        ensures
            r == (Pairing { left, right, color_left, color_right }),
    {
        Pairing { left, right, color_left, color_right }
    }

    /// The absolute score difference of the two sides; zero for a bye.
    pub fn get_score_difference(&self, tournament: &Tournament) -> (r: Result<u8, PairingError>)
        ensures
            r == score_difference(*self, tournament.spec_players()),
    {
        match self.right {
            None => Ok(0),
            Some(right_id) => {
                let left = tournament.get_player(self.left);
                let right = tournament.get_player(right_id);
                match (left, right) {
                    (Some(l), Some(r)) => {
                        if l.score >= r.score {
                            Ok(l.score - r.score)
                        } else {
                            Ok(r.score - l.score)
                        }
                    },
                    _ => Err(PairingError::PlayerNotFound),
                }
            },
        }
    }
}

/// The absolute score difference of a game's sides in `m`: zero for a bye,
/// an error when a side is not a competitor of `m`.
pub open spec fn score_difference(p: Pairing, m: Map<PlayerId, Player>) -> Result<u8, PairingError> {
    match p.right {
        None => Ok(0),
        Some(r) => if m.contains_key(p.left) && m.contains_key(r) {
            let a = m[p.left].score as int;
            let b = m[r].score as int;
            Ok((if a >= b { a - b } else { b - a }) as u8)
        } else {
            Err(PairingError::PlayerNotFound)
        },
    }
}

} // verus!
