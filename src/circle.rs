use vstd::prelude::*;

use crate::berger_table::{shift, slot};

verus! {

/// Where padded index `u` stands on the circle of `m + 1` places once the
/// circle has turned by `k`.
pub open spec fn circle_pos(m: int, k: int, u: int) -> int {
    if u == 0 {
        0
    } else if u - 1 >= k {
        u - k
    } else {
        u - k + m
    }
}

/// Padded indices `u` then `v` are the two sides of one game of `round`.
pub open spec fn positions_meet(n: int, round: int, u: int, v: int) -> bool {
    exists|i: int| 0 <= i < n / 2 && #[trigger] slot(n, round, i) == u && slot(n, round, n - 1 - i) == v
}

/// In round `k + 1` the circle has turned by `k`, and circle position
/// `circle_pos(m, k, u)` is the only one that holds padded index `u`.
pub proof fn lemma_slot_position(m: int, k: int, u: int)
    requires
        m >= 1,
        0 <= k < m,
        0 <= u <= m,
    ensures
        shift(m + 1, k + 1) == k,
        0 <= circle_pos(m, k, u) <= m,
        slot(m + 1, k + 1, circle_pos(m, k, u)) == u,
        forall|j: int| 0 <= j <= m && #[trigger] slot(m + 1, k + 1, j) == u ==> j == circle_pos(m, k, u),
        forall|j: int| 0 <= j <= m ==> 0 <= #[trigger] slot(m + 1, k + 1, j) <= m,
{
    vstd::arithmetic::div_mod::lemma_small_mod(k as nat, m as nat);
    assert forall|j: int| 1 <= j <= m implies #[trigger] slot(m + 1, k + 1, j) == (if j - 1 + k < m {
        j + k
    } else {
        j + k - m
    }) by {
        if j - 1 + k < m {
            vstd::arithmetic::div_mod::lemma_small_mod((j - 1 + k) as nat, m as nat);
        } else {
            vstd::arithmetic::div_mod::lemma_fundamental_div_mod_converse(j - 1 + k, m, 1, j - 1 + k - m);
        }
    }
}

/// With `m` odd, any two padded indices meet in exactly one turn `k` of the
/// circle, namely where their circle positions add up to `m`.
pub proof fn lemma_positions_add_up_once(m: int, u: int, v: int)
    requires
        m >= 1,
        m % 2 == 1,
        0 <= u < v <= m,
    ensures
        exists|k: int| 0 <= k < m && #[trigger] circle_pos(m, k, u) + circle_pos(m, k, v) == m,
        forall|k1: int, k2: int|
            0 <= k1 < m && 0 <= k2 < m && #[trigger] circle_pos(m, k1, u) + circle_pos(m, k1, v) == m
                && #[trigger] circle_pos(m, k2, u) + circle_pos(m, k2, v) == m ==> k1 == k2,
{
    let x = u + v;
    let k = if u == 0 {
        if v == m {
            0
        } else {
            v
        }
    } else if x % 2 == 0 {
        x / 2
    } else if x >= m {
        (x - m) / 2
    } else {
        (x + m) / 2
    };
    assert(0 <= k < m && circle_pos(m, k, u) + circle_pos(m, k, v) == m);
}

/// Two distinct padded indices are the sides of a game of round `k + 1`
/// exactly when their circle positions add up to `m`.
pub proof fn lemma_meet_iff_positions(m: int, k: int, u: int, v: int)
    requires
        m >= 1,
        m % 2 == 1,
        0 <= k < m,
        0 <= u <= m,
        0 <= v <= m,
        u != v,
    ensures
        (positions_meet(m + 1, k + 1, u, v) || positions_meet(m + 1, k + 1, v, u)) <==> circle_pos(
            m,
            k,
            u,
        ) + circle_pos(m, k, v) == m,
{
    let n = m + 1;
    lemma_slot_position(m, k, u);
    lemma_slot_position(m, k, v);
    let cu = circle_pos(m, k, u);
    let cv = circle_pos(m, k, v);
    if cu + cv == m {
        assert(cu != cv);
        if cu < cv {
            assert(slot(n, k + 1, cu) == u && slot(n, k + 1, n - 1 - cu) == v);
            assert(positions_meet(n, k + 1, u, v));
        } else {
            assert(slot(n, k + 1, cv) == v && slot(n, k + 1, n - 1 - cv) == u);
            assert(positions_meet(n, k + 1, v, u));
        }
    }
    if positions_meet(n, k + 1, u, v) {
        let i = choose|i: int|
            0 <= i < n / 2 && #[trigger] slot(n, k + 1, i) == u && slot(n, k + 1, n - 1 - i) == v;
        assert(i == cu);
        assert(n - 1 - i == cv);
    }
    if positions_meet(n, k + 1, v, u) {
        let i = choose|i: int|
            0 <= i < n / 2 && #[trigger] slot(n, k + 1, i) == v && slot(n, k + 1, n - 1 - i) == u;
        assert(i == cv);
        assert(n - 1 - i == cu);
    }
}

} // verus!
