use vstd::prelude::*;

use crate::chess_types::{Color, opposite};
use crate::circle::{
    circle_pos,
    positions_meet,
    lemma_slot_position,
    lemma_positions_add_up_once,
    lemma_meet_iff_positions,
};
use crate::pairing::Pairing;
use crate::pairing_system::PairingError;
use crate::player::PlayerId;
use crate::tournament::{Tournament, rank_order, started_from};

verus! {

/// Round-robin scheduling by the circle method.
pub struct BergerTablePairingSystem;

/// The identifier that stands for "no opponent".
pub const BYE_ID: PlayerId = 0;

/// The ranked list, padded with the bye identifier to an even length.
pub open spec fn padded(ranked: Seq<PlayerId>) -> Seq<PlayerId> {
    if ranked.len() % 2 == 1 {
        ranked.push(BYE_ID)
    } else {
        ranked
    }
}

/// How far the rotating part of the circle has turned in `round`.
pub open spec fn shift(n: int, round: int) -> int {
    (round - 1) % (n - 1)
}

/// The index into the padded list (of even length `n`) of the competitor at
/// position `j` of the circle in `round`: the first stays fixed and the
/// others are rotated left by `shift`.
pub open spec fn slot(n: int, round: int, j: int) -> int {
    if j == 0 {
        0
    } else {
        1 + (j - 1 + shift(n, round)) % (n - 1)
    }
}

/// The competitor at position `j` of the circle in `round`.
pub open spec fn circle_at(ranked: Seq<PlayerId>, round: int, j: int) -> PlayerId {
    let p = padded(ranked);
    p[slot(p.len() as int, round, j)]
}

/// The color of the first-listed side of each game in `round`.
pub open spec fn first_side_color(round: int) -> Color {
    if round % 2 == 1 {
        Color::White
    } else {
        Color::Black
    }
}

/// The color of the second-listed side of each game in `round`.
pub open spec fn second_side_color(round: int) -> Color {
    if round % 2 == 1 {
        Color::Black
    } else {
        Color::White
    }
}

/// Game `i` of `round`: circle position `i` against position `n - 1 - i`;
/// a side that is the bye leaves its partner alone, with no colors.
pub open spec fn round_robin_game(ranked: Seq<PlayerId>, round: int, i: int) -> Pairing {
    let n = padded(ranked).len() as int;
    let a = circle_at(ranked, round, i);
    let b = circle_at(ranked, round, n - 1 - i);
    if a == BYE_ID {
        Pairing { left: b, right: None, color_left: Color::NoColor, color_right: Color::NoColor }
    } else if b == BYE_ID {
        Pairing { left: a, right: None, color_left: Color::NoColor, color_right: Color::NoColor }
    } else {
        Pairing {
            left: a,
            right: Some(b),
            color_left: first_side_color(round),
            color_right: second_side_color(round),
        }
    }
}

/// All games of `round` for competitors listed by rank.
pub open spec fn round_robin_games(ranked: Seq<PlayerId>, round: int) -> Seq<Pairing> {
    Seq::new(padded(ranked).len() / 2, |i: int| round_robin_game(ranked, round, i))
}

impl BergerTablePairingSystem {
    /// The round-robin games of the tournament's current round, starting
    /// the tournament first if it has not started.
    pub fn pair_round(tournament: &mut Tournament) -> (r: Result<Vec<Pairing>, PairingError>)
        requires
            old(tournament).spec_round() == 0 ==> old(tournament).spec_players().len() <= u16::MAX,
        ensures
            started_from(*old(tournament), *final(tournament)),
            r matches Ok(games) && games@ == round_robin_games(
                rank_order(final(tournament).spec_players()),
                final(tournament).spec_round() as int,
            ),
    {
        tournament.start();
        let ranked = tournament.ranked_ids();
        Ok(BergerTablePairingSystem::pair_ranked(&ranked, tournament.current_round()))
    }

    /// The games of `round` for the competitors in `ranked`, best rank first.
    pub fn pair_ranked(ranked: &Vec<PlayerId>, round: u8) -> (r: Vec<Pairing>)
        requires
            round >= 1,
        ensures
            r@ == round_robin_games(ranked@, round as int),
    {
        let mut p: Vec<PlayerId> = ranked.clone();
        if p.len() % 2 == 1 {
            p.push(BYE_ID);
        }
        assert(p@ == padded(ranked@));
        let n = p.len();
        let mut pairings: Vec<Pairing> = Vec::new();
        if n == 0 {
            assert(pairings@ =~= round_robin_games(ranked@, round as int));
            return pairings;
        }
        let k: usize = ((round - 1) as usize) % (n - 1);
        let mut full: Vec<PlayerId> = Vec::new();
        full.push(p[0]);
        let mut j: usize = 1;
        while j < n
            invariant
                1 <= j <= n,
                n == p@.len(),
                n % 2 == 0,
                p@ == padded(ranked@),
                k as int == shift(n as int, round as int),
                k < n - 1,
                full@.len() == j,
                forall|q: int| 0 <= q < j ==> full@[q] == circle_at(ranked@, round as int, q),
            decreases n - j,
        {
            let step = n - 1 - k;
            let idx: usize = if j - 1 >= step {
                j - 1 - step
            } else {
                j - 1 + k
            };
            assert(idx as int == (j - 1 + k) % (n as int - 1)) by {
                let m = n as int - 1;
                let t = j as int - 1 + k as int;
                if t >= m {
                    vstd::arithmetic::div_mod::lemma_fundamental_div_mod_converse(t, m, 1, t - m);
                } else {
                    vstd::arithmetic::div_mod::lemma_small_mod(t as nat, m as nat);
                }
            }
            full.push(p[1 + idx]);
            j = j + 1;
        }
        let half = n / 2;
        let (first, second) = if round % 2 == 1 {
            (Color::White, Color::Black)
        } else {
            (Color::Black, Color::White)
        };
        let mut i: usize = 0;
        while i < half
            invariant
                half == n / 2,
                n == full@.len(),
                n == padded(ranked@).len(),
                forall|q: int| 0 <= q < n ==> full@[q] == circle_at(ranked@, round as int, q),
                first == first_side_color(round as int),
                second == second_side_color(round as int),
                i <= half,
                pairings@.len() == i,
                forall|q: int| 0 <= q < i ==> pairings@[q] == round_robin_game(ranked@, round as int, q),
            decreases half - i,
        {
            let a = full[i];
            let b = full[n - 1 - i];
            let game = if a == BYE_ID {
                Pairing::new(b, None, Color::NoColor, Color::NoColor)
            } else if b == BYE_ID {
                Pairing::new(a, None, Color::NoColor, Color::NoColor)
            } else {
                Pairing::new(a, Some(b), first, second)
            };
            pairings.push(game);
            i = i + 1;
        }
        assert(pairings@ =~= round_robin_games(ranked@, round as int));
        pairings
    }
}

/// In a game with two competitors, the first-listed side is White in odd
/// rounds and Black in even rounds, and the other side has the other color;
/// so two rounds of different parity give every such game opposite colors.
pub proof fn lemma_round_parity_colors(
    ranked: Seq<PlayerId>,
    round1: int,
    round2: int,
    i: int,
)
    requires
        0 <= i < padded(ranked).len() / 2,
        round1 % 2 != round2 % 2,
        round_robin_game(ranked, round1, i).right is Some,
        round_robin_game(ranked, round2, i).right is Some,
    ensures
        round_robin_game(ranked, round1, i).color_left == (if round1 % 2 == 1 {
            Color::White
        } else {
            Color::Black
        }),
        round_robin_game(ranked, round1, i).color_right == opposite(
            round_robin_game(ranked, round1, i).color_left,
        ),
        round_robin_game(ranked, round1, i).color_left == opposite(
            round_robin_game(ranked, round2, i).color_left,
        ),
        round_robin_game(ranked, round1, i).color_right == opposite(
            round_robin_game(ranked, round2, i).color_right,
        ),
{
}

/// Game `g` is between `x` and `y`, in either order.
pub open spec fn plays(g: Pairing, x: PlayerId, y: PlayerId) -> bool {
    (g.left == x && g.right == Some(y)) || (g.left == y && g.right == Some(x))
}

/// `x` and `y` play each other in `round`.
pub open spec fn meet_in_round(ranked: Seq<PlayerId>, round: int, x: PlayerId, y: PlayerId) -> bool {
    exists|i: int|
        0 <= i < padded(ranked).len() / 2 && #[trigger] plays(round_robin_game(ranked, round, i), x, y)
}

/// `x` has a bye in `round`.
pub open spec fn bye_in_round(ranked: Seq<PlayerId>, round: int, x: PlayerId) -> bool {
    exists|i: int|
        0 <= i < padded(ranked).len() / 2 && #[trigger] round_robin_game(ranked, round, i) == (Pairing {
            left: x,
            right: None,
            color_left: Color::NoColor,
            color_right: Color::NoColor,
        })
}

/// Distinct competitors, none of them holding the bye identifier.
pub open spec fn valid_entrants(ranked: Seq<PlayerId>) -> bool {
    &&& ranked.no_duplicates()
    &&& forall|i: int| 0 <= i < ranked.len() ==> #[trigger] ranked[i] != BYE_ID
}

/// The number of rounds of a full round robin: one less than the padded count.
pub open spec fn full_cycle(ranked: Seq<PlayerId>) -> int {
    padded(ranked).len() - 1
}

/// Padded positions hold distinct identifiers, and only the padding holds
/// the bye identifier.
proof fn lemma_padded_entries(ranked: Seq<PlayerId>)
    requires
        valid_entrants(ranked),
    ensures
        padded(ranked).no_duplicates(),
        forall|j: int|
            0 <= j < padded(ranked).len() && #[trigger] padded(ranked)[j] == BYE_ID ==> j
                == ranked.len() && ranked.len() % 2 == 1,
        forall|j: int| 0 <= j < ranked.len() ==> #[trigger] padded(ranked)[j] == ranked[j],
{
    let p = padded(ranked);
    if ranked.len() % 2 == 1 {
        assert forall|a: int, b: int| 0 <= a < p.len() && 0 <= b < p.len() && a != b implies p[a]
            != p[b] by {
            if a < ranked.len() && b < ranked.len() {
            } else if a < ranked.len() {
                assert(ranked[a] != BYE_ID);
            } else if b < ranked.len() {
                assert(ranked[b] != BYE_ID);
            }
        }
    }
}

/// In round `k + 1`, `x` and `y` play each other exactly when their padded
/// positions are the two sides of a game.
proof fn lemma_meet_is_positions(ranked: Seq<PlayerId>, k: int, u: int, v: int)
    requires
        valid_entrants(ranked),
        ranked.len() >= 1,
        0 <= k < full_cycle(ranked),
        0 <= u < ranked.len(),
        0 <= v < ranked.len(),
        u != v,
    ensures
        meet_in_round(ranked, k + 1, ranked[u], ranked[v]) <==> (positions_meet(
            padded(ranked).len() as int,
            k + 1,
            u,
            v,
        ) || positions_meet(padded(ranked).len() as int, k + 1, v, u)),
{
    let p = padded(ranked);
    let n = p.len() as int;
    let m = n - 1;
    let x = ranked[u];
    let y = ranked[v];
    lemma_padded_entries(ranked);
    lemma_slot_position(m, k, u);
    if meet_in_round(ranked, k + 1, x, y) {
        let i = choose|i: int| 0 <= i < n / 2 && #[trigger] plays(round_robin_game(ranked, k + 1, i), x, y);
        let a = slot(n, k + 1, i);
        let b = slot(n, k + 1, n - 1 - i);
        assert(0 <= a < n && 0 <= b < n);
        assert(p[a] != BYE_ID && p[b] != BYE_ID);
        if p[a] == x {
            assert(p[u] == x);
            assert(a == u);
            assert(b == v);
            assert(positions_meet(n, k + 1, u, v));
        } else {
            assert(p[v] == y);
            assert(a == v);
            assert(b == u);
            assert(positions_meet(n, k + 1, v, u));
        }
    }
    if positions_meet(n, k + 1, u, v) {
        let i = choose|i: int| 0 <= i < n / 2 && #[trigger] slot(n, k + 1, i) == u && slot(n, k + 1, n - 1 - i) == v;
        assert(plays(round_robin_game(ranked, k + 1, i), x, y));
    }
    if positions_meet(n, k + 1, v, u) {
        let i = choose|i: int| 0 <= i < n / 2 && #[trigger] slot(n, k + 1, i) == v && slot(n, k + 1, n - 1 - i) == u;
        assert(plays(round_robin_game(ranked, k + 1, i), x, y));
    }
}

/// Over a full cycle of rounds, any two distinct competitors play each other
/// in exactly one round.
pub proof fn lemma_round_robin_meets_once(ranked: Seq<PlayerId>, x: PlayerId, y: PlayerId)
    requires
        valid_entrants(ranked),
        ranked.contains(x),
        ranked.contains(y),
        x != y,
    ensures
        exists|r: int| 1 <= r <= full_cycle(ranked) && #[trigger] meet_in_round(ranked, r, x, y),
        forall|r1: int, r2: int|
            1 <= r1 <= full_cycle(ranked) && 1 <= r2 <= full_cycle(ranked) && #[trigger] meet_in_round(
                ranked,
                r1,
                x,
                y,
            ) && #[trigger] meet_in_round(ranked, r2, x, y) ==> r1 == r2,
{
    let n = padded(ranked).len() as int;
    let m = n - 1;
    let u = choose|u: int| 0 <= u < ranked.len() && ranked[u] == x;
    let v = choose|v: int| 0 <= v < ranked.len() && ranked[v] == y;
    let lo = if u < v { u } else { v };
    let hi = if u < v { v } else { u };
    assert forall|k: int| 0 <= k < m implies #[trigger] meet_in_round(ranked, k + 1, x, y) <==> circle_pos(m, k, lo) + circle_pos(m, k, hi) == m by {
        lemma_meet_is_positions(ranked, k, u, v);
        lemma_meet_iff_positions(m, k, u, v);
    }
    lemma_positions_add_up_once(m, lo, hi);
    let k = choose|k: int| 0 <= k < m && #[trigger] circle_pos(m, k, lo) + circle_pos(m, k, hi) == m;
    assert(meet_in_round(ranked, k + 1, x, y));
    assert forall|r1: int, r2: int|
        1 <= r1 <= m && 1 <= r2 <= m && #[trigger] meet_in_round(ranked, r1, x, y) && #[trigger] meet_in_round(ranked, r2, x, y) implies r1 == r2 by {
        assert(meet_in_round(ranked, (r1 - 1) + 1, x, y));
        assert(meet_in_round(ranked, (r2 - 1) + 1, x, y));
        assert(circle_pos(m, r1 - 1, lo) + circle_pos(m, r1 - 1, hi) == m);
        assert(circle_pos(m, r2 - 1, lo) + circle_pos(m, r2 - 1, hi) == m);
    }
}

/// With an odd number of competitors, each of them has a bye in exactly one
/// round of a full cycle.
pub proof fn lemma_round_robin_bye_once(ranked: Seq<PlayerId>, x: PlayerId)
    requires
        valid_entrants(ranked),
        ranked.len() % 2 == 1,
        ranked.contains(x),
    ensures
        exists|r: int| 1 <= r <= full_cycle(ranked) && #[trigger] bye_in_round(ranked, r, x),
        forall|r1: int, r2: int|
            1 <= r1 <= full_cycle(ranked) && 1 <= r2 <= full_cycle(ranked) && #[trigger] bye_in_round(
                ranked,
                r1,
                x,
            ) && #[trigger] bye_in_round(ranked, r2, x) ==> r1 == r2,
{
    let p = padded(ranked);
    let n = p.len() as int;
    let m = n - 1;
    let u = choose|u: int| 0 <= u < ranked.len() && ranked[u] == x;
    lemma_padded_entries(ranked);
    assert(p[m] == BYE_ID);
    assert forall|k: int| 0 <= k < m implies #[trigger] bye_in_round(ranked, k + 1, x) <==> circle_pos(m, k, u) + circle_pos(m, k, m) == m by {
        lemma_meet_iff_positions(m, k, u, m);
        lemma_slot_position(m, k, u);
        if bye_in_round(ranked, k + 1, x) {
            let i = choose|i: int| 0 <= i < n / 2 && #[trigger] round_robin_game(ranked, k + 1, i) == (Pairing {
                left: x,
                right: None,
                color_left: Color::NoColor,
                color_right: Color::NoColor,
            });
            let a = slot(n, k + 1, i);
            let b = slot(n, k + 1, n - 1 - i);
            assert(0 <= a < n && 0 <= b < n);
            if p[a] == BYE_ID {
                assert(a == m);
                assert(p[b] == x);
                assert(p[u] == x);
                assert(b == u);
                assert(positions_meet(n, k + 1, m, u));
            } else {
                assert(p[b] == BYE_ID);
                assert(b == m);
                assert(p[a] == x);
                assert(p[u] == x);
                assert(a == u);
                assert(positions_meet(n, k + 1, u, m));
            }
        }
        if positions_meet(n, k + 1, u, m) {
            let i = choose|i: int| 0 <= i < n / 2 && #[trigger] slot(n, k + 1, i) == u && slot(n, k + 1, n - 1 - i) == m;
            assert(round_robin_game(ranked, k + 1, i).left == x);
        }
        if positions_meet(n, k + 1, m, u) {
            let i = choose|i: int| 0 <= i < n / 2 && #[trigger] slot(n, k + 1, i) == m && slot(n, k + 1, n - 1 - i) == u;
            assert(round_robin_game(ranked, k + 1, i).left == x);
        }
    }
    lemma_positions_add_up_once(m, u, m);
    let k = choose|k: int| 0 <= k < m && #[trigger] circle_pos(m, k, u) + circle_pos(m, k, m) == m;
    assert(bye_in_round(ranked, k + 1, x));
    assert forall|r1: int, r2: int|
        1 <= r1 <= m && 1 <= r2 <= m && #[trigger] bye_in_round(ranked, r1, x) && #[trigger] bye_in_round(ranked, r2, x) implies r1 == r2 by {
        assert(bye_in_round(ranked, (r1 - 1) + 1, x));
        assert(bye_in_round(ranked, (r2 - 1) + 1, x));
        assert(circle_pos(m, r1 - 1, u) + circle_pos(m, r1 - 1, m) == m);
        assert(circle_pos(m, r2 - 1, u) + circle_pos(m, r2 - 1, m) == m);
    }
}

} // verus!
