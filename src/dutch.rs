use vstd::prelude::*;

use crate::chess_types::{Color, opposite};
use crate::pairing::Pairing;
use crate::pairing_system::PairingError;
use crate::player::PlayerId;
use crate::tournament::{Tournament, rank_order, started_from};

verus! {

/// Swiss pairing under the Dutch rules; only the first round is available.
pub struct DutchPairingSystem;

/// The color of every left-hand side in the first round: White when the
/// number of competitors is odd, Black when it is even.
pub open spec fn first_round_color(count: int) -> Color {
    if count % 2 == 1 {
        Color::White
    } else {
        Color::Black
    }
}

/// The competitor at position `j` when `ranked` (best rank first) is listed
/// by rank number descending.
pub open spec fn descending_at(ranked: Seq<PlayerId>, j: int) -> PlayerId {
    ranked[ranked.len() - 1 - j]
}

/// The games of the first round: with `m` the count rounded down to even,
/// descending position `i` meets position `m - 1 - i`; when the count is odd
/// a final record gives the remaining competitor, rank one, a bye.
pub open spec fn first_round_games(ranked: Seq<PlayerId>) -> Seq<Pairing> {
    let count = ranked.len() as int;
    let m = count - count % 2;
    let c = first_round_color(count);
    let games = Seq::new(
        (m / 2) as nat,
        |i: int|
            Pairing {
                left: descending_at(ranked, i),
                right: Some(descending_at(ranked, m - 1 - i)),
                color_left: c,
                color_right: opposite(c),
            },
    );
    if count % 2 == 1 {
        games.push(
            Pairing {
                left: descending_at(ranked, m),
                right: None,
                color_left: Color::NoColor,
                color_right: Color::NoColor,
            },
        )
    } else {
        games
    }
}

impl DutchPairingSystem {
    /// The Swiss games of the tournament's current round, starting the
    /// tournament first if it has not started; only round one is available.
    pub fn pair_round(tournament: &mut Tournament) -> (r: Result<Vec<Pairing>, PairingError>)
        requires
            old(tournament).spec_round() == 0 ==> old(tournament).spec_players().len() <= u16::MAX,
        ensures
            started_from(*old(tournament), *final(tournament)),
            final(tournament).spec_round() == 1 ==> (r matches Ok(games) && games@
                == first_round_games(rank_order(final(tournament).spec_players()))),
            final(tournament).spec_round() != 1 ==> r == Err::<Vec<Pairing>, PairingError>(
                PairingError::UnimplementedPairingSystem,
            ),
    {
        tournament.start();
        if tournament.current_round() == 1 {
            Ok(DutchPairingSystem::pair_first_round(tournament))
        } else {
            Err(PairingError::UnimplementedPairingSystem)
        }
    }

    /// The first-round games of a started tournament.
    pub fn pair_first_round(tournament: &Tournament) -> (r: Vec<Pairing>)
        ensures
            r@ == first_round_games(rank_order(tournament.spec_players())),
    {
        let ranked = tournament.ranked_ids();
        DutchPairingSystem::pair_first_round_ranked(&ranked)
    }

    /// The first-round games for the competitors in `ranked`, best rank first.
    pub fn pair_first_round_ranked(ranked: &Vec<PlayerId>) -> (r: Vec<Pairing>)
        ensures
            r@ == first_round_games(ranked@),
    {
        let count = ranked.len();
        let is_odd = count % 2 == 1;
        let m = if is_odd {
            count - 1
        } else {
            count
        };
        let c = if is_odd {
            Color::White
        } else {
            Color::Black
        };
        let half = m / 2;
        let mut pairings: Vec<Pairing> = Vec::new();
        let mut i: usize = 0;
        while i < half
            invariant
                count == ranked@.len(),
                m as int == count - count % 2,
                half == m / 2,
                c == first_round_color(count as int),
                i <= half,
                pairings@.len() == i,
                forall|q: int|
                    0 <= q < i ==> pairings@[q] == (Pairing {
                        left: descending_at(ranked@, q),
                        right: Some(descending_at(ranked@, m - 1 - q)),
                        color_left: c,
                        color_right: opposite(c),
                    }),
            decreases half - i,
        {
            let left = ranked[count - 1 - i];
            let right = ranked[count - 1 - (m - 1 - i)];
            pairings.push(Pairing::new(left, Some(right), c, c.not()));
            i = i + 1;
        }
        if is_odd {
            pairings.push(Pairing::new(ranked[count - 1 - m], None, Color::NoColor, Color::NoColor));
        }
        assert(pairings@ =~= first_round_games(ranked@));
        pairings
    }
}

} // verus!
