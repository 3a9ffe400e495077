use vstd::prelude::*;

use std::collections::BTreeMap;
use vstd::std_specs::iter::IteratorSpec;

use crate::chess_types::{ResultScoreConfig, title_rank};
use crate::pairing::Pairing;
use crate::pairing_system::PairingSystemType;
use crate::player::{Player, PlayerId, info_line};
use crate::text::{append_decimal, decimal};
use vstd::string::StringExecFns;
use crate::berger_table::{BergerTablePairingSystem, round_robin_games};
use crate::dutch::{DutchPairingSystem, first_round_games};
use crate::pairing_system::PairingError;
use crate::score_groups::{GroupIds, group_ids};
use crate::sorting::{
    RankKey,
    key_lt,
    text_lt,
    number_le,
    sort_rank_keys,
    sort_rank_numbers,
    lemma_permutation_keeps_ids,
};

verus! {

broadcast use vstd::std_specs::btree::group_btree_axioms;

/// A tournament: its competitors keyed by identifier, its round counter and
/// its pairing discipline.
#[derive(Debug)]
pub struct Tournament {
    pairing_system: PairingSystemType,
    number_of_rounds: u8,
    current_round: u8,
    players: BTreeMap<PlayerId, Player>,
    withdrawn_players: Vec<(PlayerId, u8)>,
    past_round_pairings: Vec<Pairing>,
    result_scores: ResultScoreConfig,
}

/// `a` is `b` with at most its rank number changed.
pub open spec fn same_but_rank(a: Player, b: Player) -> bool {
    a == Player { pairing_number: a.pairing_number, ..b }
}

/// The rank numbers of `m` are a bijection from its keys onto `1..=m.len()`.
pub open spec fn ranks_bijective(m: Map<PlayerId, Player>) -> bool {
    &&& forall|k: PlayerId|
        #![trigger m[k]]
        m.contains_key(k) ==> 1 <= m[k].pairing_number <= m.len()
    &&& forall|k1: PlayerId, k2: PlayerId|
        m.contains_key(k1) && m.contains_key(k2) && #[trigger] m[k1].pairing_number
            == #[trigger] m[k2].pairing_number ==> k1 == k2
    &&& forall|r: int| 1 <= r <= m.len() ==> #[trigger] rank_taken(m, r)
}

/// Some competitor of `m` has rank number `r`.
pub open spec fn rank_taken(m: Map<PlayerId, Player>, r: int) -> bool {
    exists|k: PlayerId| #![trigger m[k]] m.contains_key(k) && m[k].pairing_number == r
}

/// The sort key of the competitor stored under `k`.
pub open spec fn rank_key(m: Map<PlayerId, Player>, k: PlayerId) -> RankKey {
    (m[k].info.rating, title_rank(m[k].info.title), m[k].info.name, k)
}

/// Lower identities (rating, then title, then name) get higher rank numbers,
/// so the best competitor has rank one.
pub open spec fn ranks_follow_identity(m: Map<PlayerId, Player>) -> bool {
    forall|k1: PlayerId, k2: PlayerId|
        m.contains_key(k1) && m.contains_key(k2) && key_lt(
            #[trigger] rank_key(m, k1),
            #[trigger] rank_key(m, k2),
        ) ==> m[k1].pairing_number > m[k2].pairing_number
}

/// Competitor `a` comes before `b` in the pairing order: lower rank number
/// first, and the lower identifier first between equal rank numbers.
pub open spec fn order_lt(m: Map<PlayerId, Player>, a: PlayerId, b: PlayerId) -> bool {
    m[a].pairing_number < m[b].pairing_number || (m[a].pairing_number == m[b].pairing_number && a
        < b)
}

/// `s` lists every competitor of `m` once, in pairing order.
pub open spec fn is_rank_order(m: Map<PlayerId, Player>, s: Seq<PlayerId>) -> bool {
    &&& forall|i: int| 0 <= i < s.len() ==> m.contains_key(#[trigger] s[i])
    &&& forall|k: PlayerId| #[trigger] m.contains_key(k) ==> s.contains(k)
    &&& forall|i: int, j: int| 0 <= i < j < s.len() ==> order_lt(m, #[trigger] s[i], #[trigger] s[j])
}

/// The competitors of `m` in pairing order.
pub open spec fn rank_order(m: Map<PlayerId, Player>) -> Seq<PlayerId> {
    choose|s: Seq<PlayerId>| is_rank_order(m, s)
}

/// Two listings of the same competitors in pairing order are the same.
pub proof fn lemma_rank_order_unique(m: Map<PlayerId, Player>, s1: Seq<PlayerId>, s2: Seq<PlayerId>)
    requires
        forall|i: int| 0 <= i < s1.len() ==> #[trigger] s2.contains(s1[i]),
        forall|i: int| 0 <= i < s2.len() ==> #[trigger] s1.contains(s2[i]),
        forall|i: int, j: int| 0 <= i < j < s1.len() ==> order_lt(m, #[trigger] s1[i], #[trigger] s1[j]),
        forall|i: int, j: int| 0 <= i < j < s2.len() ==> order_lt(m, #[trigger] s2[i], #[trigger] s2[j]),
    ensures
        s1 == s2,
    decreases s1.len() + s2.len(),
{
    if s1.len() == 0 {
        if s2.len() > 0 {
            assert(s1.contains(s2[0]));
        }
        assert(s1 =~= s2);
    } else if s2.len() == 0 {
        assert(s2.contains(s1[0]));
    } else {
        assert(s2.contains(s1[0]));
        let j = choose|j: int| 0 <= j < s2.len() && s2[j] == s1[0];
        assert(s1.contains(s2[0]));
        let i = choose|i: int| 0 <= i < s1.len() && s1[i] == s2[0];
        if j > 0 {
            assert(order_lt(m, s2[0], s2[j]));
            if i > 0 {
                assert(order_lt(m, s1[0], s1[i]));
            }
        }
        assert(s1[0] == s2[0]);
        let t1 = s1.drop_first();
        let t2 = s2.drop_first();
        assert forall|a: int| 0 <= a < t1.len() implies #[trigger] t2.contains(t1[a]) by {
            assert(s2.contains(s1[a + 1]));
            let b = choose|b: int| 0 <= b < s2.len() && s2[b] == s1[a + 1];
            assert(order_lt(m, s1[0], s1[a + 1]));
            assert(b != 0);
            assert(t2[b - 1] == t1[a]);
        }
        assert forall|a: int| 0 <= a < t2.len() implies #[trigger] t1.contains(t2[a]) by {
            assert(s1.contains(s2[a + 1]));
            let b = choose|b: int| 0 <= b < s1.len() && s1[b] == s2[a + 1];
            assert(order_lt(m, s2[0], s2[a + 1]));
            assert(b != 0);
            assert(t1[b - 1] == t2[a]);
        }
        assert forall|a: int, b: int| 0 <= a < b < t1.len() implies order_lt(m, #[trigger] t1[a], #[trigger] t1[b]) by {
            assert(order_lt(m, s1[a + 1], s1[b + 1]));
        }
        assert forall|a: int, b: int| 0 <= a < b < t2.len() implies order_lt(m, #[trigger] t2[a], #[trigger] t2[b]) by {
            assert(order_lt(m, s2[a + 1], s2[b + 1]));
        }
        lemma_rank_order_unique(m, t1, t2);
        assert(s1 =~= s2) by {
            assert(s1 =~= seq![s1[0]] + t1);
            assert(s2 =~= seq![s2[0]] + t2);
        }
    }
}

/// Competitors grouped by score: each score held by someone maps to the
/// identifiers of those holding it.
pub type ScoreGroups = BTreeMap<u8, GroupIds>;

/// Some competitor of `m` has score `s`.
pub open spec fn score_taken(m: Map<PlayerId, Player>, s: u8) -> bool {
    exists|k: PlayerId| #![trigger m[k]] m.contains_key(k) && m[k].score == s
}

/// `g` holds, for each score of a competitor of `m`, the identifiers of the
/// competitors with that score, each once, and nothing else.
pub open spec fn groups_by_score(m: Map<PlayerId, Player>, g: Map<u8, GroupIds>) -> bool {
    &&& forall|s: u8| #[trigger] g.contains_key(s) <==> score_taken(m, s)
    &&& forall|s: u8| #[trigger] g.contains_key(s) ==> group_ids(g[s]).no_duplicates()
    &&& forall|s: u8, x: PlayerId|
        #[trigger] g.contains_key(s) ==> (#[trigger] group_ids(g[s]).contains(x) <==> (
        m.contains_key(x) && m[x].score == s))
}

/// Every competitor lies in exactly one score group, the one of its score,
/// and appears there once; the groups hold nobody else.
pub proof fn lemma_score_groups_partition(m: Map<PlayerId, Player>, g: Map<u8, GroupIds>)
    requires
        groups_by_score(m, g),
    ensures
        forall|k: PlayerId|
            #[trigger] m.contains_key(k) ==> g.contains_key(m[k].score) && group_ids(
                g[m[k].score],
            ).contains(k),
        forall|k: PlayerId, s: u8|
            g.contains_key(s) && #[trigger] group_ids(g[s]).contains(k) ==> m.contains_key(k) && s
                == m[k].score,
        forall|s: u8, i: int, j: int|
            g.contains_key(s) && 0 <= i < j < group_ids(g[s]).len() ==> #[trigger] group_ids(
                g[s],
            )[i] != #[trigger] group_ids(g[s])[j],
{
    assert forall|k: PlayerId| #[trigger] m.contains_key(k) implies g.contains_key(m[k].score)
        && group_ids(g[m[k].score]).contains(k) by {
        let t = m[k].score;
        assert(m.contains_key(k) && m[k].score == t);
        assert(score_taken(m, t));
        assert(g.contains_key(t));
        assert(group_ids(g[t]).contains(k) <==> (m.contains_key(k) && m[k].score == t));
    }
}

/// Some position of `ids` before `i` holds `x`.
pub open spec fn seen_before(ids: Seq<PlayerId>, i: int, x: PlayerId) -> bool {
    exists|q: int| 0 <= q < i && ids[q] == x
}

/// Some competitor among the first `i` of `ids` has score `s`.
pub open spec fn score_seen(m: Map<PlayerId, Player>, ids: Seq<PlayerId>, i: int, s: u8) -> bool {
    exists|q: int| 0 <= q < i && #[trigger] m[ids[q]].score == s
}

/// Once the rank numbers are a bijection onto `1..=N`, the pairing order
/// lists the competitors by rank: position `i` holds rank `i + 1`.
pub proof fn lemma_rank_order_by_number(m: Map<PlayerId, Player>)
    requires
        m.dom().finite(),
        ranks_bijective(m),
    ensures
        rank_order(m).len() == m.len(),
        forall|i: int|
            0 <= i < m.len() ==> m.contains_key(#[trigger] rank_order(m)[i]) && m[rank_order(
                m,
            )[i]].pairing_number == i + 1,
{
    let n = m.len() as int;
    let t = Seq::new(
        n as nat,
        |i: int| choose|k: PlayerId| #![trigger m[k]] m.contains_key(k) && m[k].pairing_number == i + 1,
    );
    assert forall|i: int| 0 <= i < n implies m.contains_key(#[trigger] t[i]) && m[t[i]].pairing_number
        == i + 1 by {
        assert(rank_taken(m, i + 1));
    }
    assert forall|k: PlayerId| #[trigger] m.contains_key(k) implies t.contains(k) by {
        let r = m[k].pairing_number as int;
        assert(m.contains_key(t[r - 1]));
        assert(t[r - 1] == k);
    }
    assert forall|i: int, j: int| 0 <= i < j < t.len() implies order_lt(m, #[trigger] t[i], #[trigger] t[j]) by {
        assert(m[t[i]].pairing_number == i + 1);
        assert(m[t[j]].pairing_number == j + 1);
    }
    assert(is_rank_order(m, t));
    lemma_rank_order_unique(m, t, rank_order(m));
}

/// Relies on std's BTreeMap::get_mut: a reference to the value under `k`,
/// if there is one.
#[verifier::external_body]
fn map_get_mut(m: &mut BTreeMap<PlayerId, Player>, k: PlayerId) -> (r: Option<&mut Player>)
    ensures
        old(m)@.contains_key(k) <==> r is Some,
        r matches Some(p) ==> *p == old(m)@[k] && final(m)@ == old(m)@.insert(k, *final(p)),
        r is None ==> final(m)@ == old(m)@,
{
    m.get_mut(&k)
}

/// A text never comes before itself.
proof fn lemma_text_lt_irreflexive(a: Seq<char>)
    ensures
        !text_lt(a, a),
    decreases a.len(),
{
    if a.len() > 0 {
        lemma_text_lt_irreflexive(a.drop_first());
    }
}

impl Tournament {
    /// The competitors, keyed by identifier.
    pub closed spec fn spec_players(&self) -> Map<PlayerId, Player> {
        self.players@
    }

    /// The current round; zero before the start.
    pub closed spec fn spec_round(&self) -> u8 {
        self.current_round
    }

    /// The configured pairing discipline.
    pub closed spec fn spec_system(&self) -> PairingSystemType {
        self.pairing_system
    }

    /// The configured number of rounds.
    pub closed spec fn spec_number_of_rounds(&self) -> u8 {
        self.number_of_rounds
    }

    /// The points for a win, a draw and a loss.
    pub closed spec fn spec_result_scores(&self) -> ResultScoreConfig {
        self.result_scores
    }

    /// Everything but the competitors is as in `other`.
    pub open spec fn same_settings(&self, other: &Tournament) -> bool {
        &&& self.spec_round() == other.spec_round()
        &&& self.spec_system() == other.spec_system()
        &&& self.spec_number_of_rounds() == other.spec_number_of_rounds()
        &&& self.spec_result_scores() == other.spec_result_scores()
        &&& self.spec_withdrawn() == other.spec_withdrawn()
    }

    /// The identifiers of all competitors, each once.
    pub fn player_ids(&self) -> (r: Vec<PlayerId>)
        ensures
            r@.to_set() == self.spec_players().dom(),
            r@.no_duplicates(),
            r@.len() == self.spec_players().len(),
    {
        let ghost ks = vstd::std_specs::btree::spec_keys_iter(&self.players).remaining();
        let mut ids: Vec<PlayerId> = Vec::new();
        for id in it: self.players.keys()
            invariant
                it.seq() == ks,
                ids@ == ks.take(it.index() as int).map_values(|k: &PlayerId| *k),
        {
            ids.push(*id);
            assert(ids@ =~= ks.take(it.index() as int + 1).map_values(|k: &PlayerId| *k));
        }
        proof {
            vstd::std_specs::btree::axiom_spec_keys_iter(&self.players);
            assert(ids@ =~= ks.unref());
            ids@.unique_seq_to_set();
        }
        ids
    }

    /// Gives every competitor a rank number: ordered by identity ascending,
    /// they receive `N` down to `1`.
    pub fn assign_pairing_numbers(&mut self)
        requires
            old(self).spec_players().len() <= u16::MAX,
        ensures
            final(self).same_settings(old(self)),
            final(self).spec_players().dom() == old(self).spec_players().dom(),
            forall|k: PlayerId|
                #[trigger] final(self).spec_players().contains_key(k) ==> same_but_rank(
                    final(self).spec_players()[k],
                    old(self).spec_players()[k],
                ),
            ranks_bijective(final(self).spec_players()),
            ranks_follow_identity(final(self).spec_players()),
    {
        let ids = self.player_ids();
        let n = ids.len();
        let ghost m0 = self.players@;
        let mut keys: Vec<RankKey> = Vec::new();
        let mut i: usize = 0;
        while i < n
            invariant
                n == ids@.len(),
                self.players@ == m0,
                ids@.to_set() == m0.dom(),
                i <= n,
                keys@.len() == i,
                forall|q: int| 0 <= q < i ==> #[trigger] keys@[q] == rank_key(m0, ids@[q]),
            decreases n - i,
        {
            let id = ids[i];
            assert(ids@.contains(id));
            let p = self.players.get(&id).unwrap();
            keys.push((p.info.rating, p.info.title.to_code(), p.info.name.clone(), id));
            i = i + 1;
        }
        let ghost kv = keys@;
        let sorted = sort_rank_keys(keys);
        proof {
            assert forall|a: int, b: int|
                0 <= a < kv.len() && 0 <= b < kv.len() && (|e: RankKey| e.3)(#[trigger] kv[a]) == (
                |e: RankKey| e.3)(#[trigger] kv[b]) implies a == b by {
                assert(ids@[a] == ids@[b]);
            }
            lemma_permutation_keeps_ids(kv, sorted@, |e: RankKey| e.3);
        }
        let ghost sv = sorted@;
        let ghost id_of = |e: RankKey| e.3;
        let mut i: usize = 0;
        while i < n
            invariant
                n == sv.len(),
                n == ids@.len(),
                sv == sorted@,
                n <= u16::MAX,
                forall|a: int| 0 <= a < n ==> kv.contains(#[trigger] sv[a]),
                forall|q: int| 0 <= q < n ==> #[trigger] kv[q] == rank_key(m0, ids@[q]),
                ids@.to_set() == m0.dom(),
                kv.len() == n,
                forall|a: int, b: int|
                    0 <= a < n && 0 <= b < n && id_of(#[trigger] sv[a]) == id_of(#[trigger] sv[b])
                        ==> a == b,
                id_of == (|e: RankKey| e.3),
                i <= n,
                self.same_settings(old(self)),
                self.players@.dom() == m0.dom(),
                forall|k: PlayerId|
                    #[trigger] self.players@.contains_key(k) ==> same_but_rank(
                        self.players@[k],
                        m0[k],
                    ),
                forall|q: int|
                    0 <= q < i ==> self.players@[(#[trigger] sv[q]).3].pairing_number == n - q,
            decreases n - i,
        {
            let id = sorted[i].3;
            assert(m0.contains_key(id)) by {
                let a = choose|a: int| 0 <= a < n && kv[a] == sv[i as int];
                assert(ids@.contains(ids@[a]));
            }
            let mut p = self.players.remove(&id).unwrap();
            p.pairing_number = (n - i) as u16;
            self.players.insert(id, p);
            proof {
                assert forall|q: int| 0 <= q < i implies sv[q].3 != id by {
                    assert(id_of(sv[q]) != id_of(sv[i as int]));
                }
            }
            i = i + 1;
        }
        proof {
            let m = self.players@;
            assert(m.len() == n) by {
                assert(m.dom() == m0.dom());
            }
            // each competitor sits at some position of the sorted keys
            assert forall|k: PlayerId| #[trigger] m.contains_key(k) implies exists|q: int|
                0 <= q < n && sv[q].3 == k && sv[q] == rank_key(m0, k) by {
                assert(ids@.to_set().contains(k));
                let a = choose|a: int| 0 <= a < n && ids@[a] == k;
                assert(kv[a].3 == k);
                assert(sv.contains(kv[a]));
                let q = choose|q: int| 0 <= q < n && sv[q] == kv[a];
            }
            assert forall|k: PlayerId| #[trigger] m.contains_key(k) implies 1 <= m[k].pairing_number
                <= m.len() by {
                let q = choose|q: int| 0 <= q < n && sv[q].3 == k && sv[q] == rank_key(m0, k);
            }
            assert forall|k1: PlayerId, k2: PlayerId|
                m.contains_key(k1) && m.contains_key(k2) && #[trigger] m[k1].pairing_number
                    == #[trigger] m[k2].pairing_number implies k1 == k2 by {
                let q1 = choose|q: int| 0 <= q < n && sv[q].3 == k1 && sv[q] == rank_key(m0, k1);
                let q2 = choose|q: int| 0 <= q < n && sv[q].3 == k2 && sv[q] == rank_key(m0, k2);
            }
            assert forall|r: int| 1 <= r <= m.len() implies #[trigger] rank_taken(m, r) by {
                let q = n - r;
                let k = sv[q].3;
                assert(kv.contains(sv[q]));
                let a = choose|a: int| 0 <= a < n && kv[a] == sv[q];
                assert(ids@.contains(ids@[a]));
                assert(m.contains_key(k) && m[k].pairing_number == r);
            }
            assert forall|k1: PlayerId, k2: PlayerId|
                m.contains_key(k1) && m.contains_key(k2) && key_lt(
                    #[trigger] rank_key(m, k1),
                    #[trigger] rank_key(m, k2),
                ) implies m[k1].pairing_number > m[k2].pairing_number by {
                let q1 = choose|q: int| 0 <= q < n && sv[q].3 == k1 && sv[q] == rank_key(m0, k1);
                let q2 = choose|q: int| 0 <= q < n && sv[q].3 == k2 && sv[q] == rank_key(m0, k2);
                assert(rank_key(m, k1) == rank_key(m0, k1));
                assert(rank_key(m, k2) == rank_key(m0, k2));
                if q1 == q2 {
                    lemma_text_lt_irreflexive(m[k1].info.name@);
                }
                if q1 > q2 {
                    assert(!key_lt(sv[q1], sv[q2]));
                }
            }
        }
    }

    /// The identifiers of all competitors in pairing order.
    pub fn ranked_ids(&self) -> (r: Vec<PlayerId>)
        ensures
            is_rank_order(self.spec_players(), r@),
            r@ == rank_order(self.spec_players()),
    {
        let ids = self.player_ids();
        let n = ids.len();
        let ghost m = self.players@;
        let mut pairs: Vec<(u16, PlayerId)> = Vec::new();
        let mut i: usize = 0;
        while i < n
            invariant
                n == ids@.len(),
                self.players@ == m,
                ids@.to_set() == m.dom(),
                i <= n,
                pairs@.len() == i,
                forall|q: int| 0 <= q < i ==> #[trigger] pairs@[q] == (m[ids@[q]].pairing_number, ids@[q]),
            decreases n - i,
        {
            let id = ids[i];
            assert(ids@.contains(id));
            let p = self.players.get(&id).unwrap();
            pairs.push((p.pairing_number, id));
            i = i + 1;
        }
        let ghost pv = pairs@;
        let sorted = sort_rank_numbers(pairs);
        let ghost sv = sorted@;
        let ghost id_of = |e: (u16, PlayerId)| e.1;
        proof {
            assert forall|a: int, b: int|
                0 <= a < pv.len() && 0 <= b < pv.len() && id_of(#[trigger] pv[a]) == id_of(
                    #[trigger] pv[b]) implies a == b by {
                assert(ids@[a] == ids@[b]);
            }
            lemma_permutation_keeps_ids(pv, sv, id_of);
        }
        let mut out: Vec<PlayerId> = Vec::new();
        let mut i: usize = 0;
        while i < n
            invariant
                n == sv.len(),
                sv == sorted@,
                i <= n,
                out@.len() == i,
                forall|q: int| 0 <= q < i ==> #[trigger] out@[q] == sv[q].1,
            decreases n - i,
        {
            out.push(sorted[i].1);
            i = i + 1;
        }
        proof {
            let s = out@;
            assert forall|q: int| 0 <= q < n implies #[trigger] pv.contains(sv[q]) && m.contains_key(
                s[q]) && sv[q] == (m[s[q]].pairing_number, s[q]) by {
                let a = choose|a: int| 0 <= a < n && pv[a] == sv[q];
                assert(ids@.contains(ids@[a]));
            }
            assert forall|i: int| 0 <= i < s.len() implies m.contains_key(#[trigger] s[i]) by {
                assert(pv.contains(sv[i]));
            }
            assert forall|k: PlayerId| #[trigger] m.contains_key(k) implies s.contains(k) by {
                assert(ids@.to_set().contains(k));
                let a = choose|a: int| 0 <= a < n && ids@[a] == k;
                assert(sv.contains(pv[a]));
                let q = choose|q: int| 0 <= q < n && sv[q] == pv[a];
                assert(s[q] == k);
            }
            assert forall|i: int, j: int| 0 <= i < j < s.len() implies order_lt(m, #[trigger] s[i], #[trigger] s[j]) by {
                assert(pv.contains(sv[i]));
                assert(pv.contains(sv[j]));
                assert(number_le(sv[i], sv[j]));
                assert(id_of(sv[i]) != id_of(sv[j]));
            }
            assert(is_rank_order(m, s));
            lemma_rank_order_unique(m, s, rank_order(m));
        }
        out
    }

    /// An empty tournament, not started, scoring 2/1/0.
    pub fn new(number_of_rounds: u8, pairing_system: PairingSystemType) -> (r: Tournament)
        ensures
            r.spec_players() == Map::<PlayerId, Player>::empty(),
            r.spec_round() == 0,
            r.spec_system() == pairing_system,
            r.spec_number_of_rounds() == number_of_rounds,
            r.spec_result_scores() == (2u8, 1u8, 0u8),
    {
        Tournament::new_with_result_scores(number_of_rounds, pairing_system, (2, 1, 0))
    }

    /// An empty tournament, not started, with the given points per result.
    pub fn new_with_result_scores(
        number_of_rounds: u8,
        pairing_system: PairingSystemType,
        result_scores: ResultScoreConfig,
    ) -> (r: Tournament)
        ensures
            r.spec_players() == Map::<PlayerId, Player>::empty(),
            r.spec_round() == 0,
            r.spec_system() == pairing_system,
            r.spec_number_of_rounds() == number_of_rounds,
            r.spec_result_scores() == result_scores,
    {
        Tournament {
            pairing_system,
            number_of_rounds,
            current_round: 0,
            players: BTreeMap::new(),
            withdrawn_players: Vec::new(),
            past_round_pairings: Vec::new(),
            result_scores,
        }
    }

    /// A tournament, not started, holding the given competitors.
    pub fn new_with_players(
        number_of_rounds: u8,
        pairing_system: PairingSystemType,
        players: BTreeMap<PlayerId, Player>,
    ) -> (r: Tournament)
        ensures
            r.spec_players() == players@,
            r.spec_round() == 0,
            r.spec_system() == pairing_system,
            r.spec_number_of_rounds() == number_of_rounds,
            r.spec_result_scores() == (2u8, 1u8, 0u8),
    {
        Tournament {
            pairing_system,
            number_of_rounds,
            current_round: 0,
            players,
            withdrawn_players: Vec::new(),
            past_round_pairings: Vec::new(),
            result_scores: (2, 1, 0),
        }
    }

    /// Adds a competitor under its identifier; an earlier one with the same
    /// identifier is replaced.
    pub fn add_player(&mut self, player: Player)
        ensures
            final(self).same_settings(old(self)),
            final(self).spec_players() == old(self).spec_players().insert(player.info.id, player),
    {
        let id = player.info.id;
        self.players.insert(id, player);
    }

    /// Adds competitors in order, each replacing an earlier one with its
    /// identifier.
    pub fn add_players(&mut self, players: Vec<Player>)
        ensures
            final(self).same_settings(old(self)),
            final(self).spec_players() == inserted_all(old(self).spec_players(), players@),
    {
        let ghost m0 = self.players@;
        let ghost ps = players@;
        let mut i: usize = 0;
        let n = players.len();
        let mut rest = players;
        while i < n
            invariant
                n == ps.len(),
                i <= n,
                rest@ == ps.subrange(i as int, n as int),
                self.same_settings(old(self)),
                self.players@ == inserted_all(m0, ps.subrange(0, i as int)),
            decreases n - i,
        {
            assert(rest@.len() > 0);
            let p = rest.remove(0);
            proof {
                assert(p == ps[i as int]);
                assert(ps.subrange(0, i as int + 1).drop_last() =~= ps.subrange(0, i as int));
            }
            let id = p.info.id;
            self.players.insert(id, p);
            i = i + 1;
            assert(rest@ =~= ps.subrange(i as int, n as int));
        }
        assert(ps.subrange(0, n as int) =~= ps);
    }

    /// The competitor with the given identifier, if there is one.
    pub fn get_player(&self, player_id: PlayerId) -> (r: Option<&Player>)
        ensures
            r matches Some(p) ==> self.spec_players().contains_key(player_id) && *p
                == self.spec_players()[player_id],
            r is None ==> !self.spec_players().contains_key(player_id),
    {
        self.players.get(&player_id)
    }

    /// The competitors, keyed by identifier, for changing in place.
    pub fn get_players_mut(&mut self) -> (r: &mut BTreeMap<PlayerId, Player>)
        ensures
            r@ == old(self).spec_players(),
            final(self).spec_players() == final(r)@,
            final(self).same_settings(old(self)),
    {
        &mut self.players
    }

    /// The competitor with the given identifier, for changing in place.
    pub fn get_player_mut(&mut self, player_id: PlayerId) -> (r: Option<&mut Player>)
        ensures
            old(self).spec_players().contains_key(player_id) <==> r is Some,
            r matches Some(p) ==> *p == old(self).spec_players()[player_id]
                && final(self).spec_players() == old(self).spec_players().insert(
                player_id,
                *final(p),
            ),
            r is None ==> final(self).spec_players() == old(self).spec_players(),
            final(self).same_settings(old(self)),
    {
        map_get_mut(&mut self.players, player_id)
    }

    /// The configured pairing discipline.
    pub fn get_pairing_system_type(&self) -> (r: PairingSystemType)
        ensures
            r == self.spec_system(),
    {
        self.pairing_system
    }

    /// The current round; zero before the start.
    pub fn current_round(&self) -> (r: u8)
        ensures
            r == self.spec_round(),
    {
        self.current_round
    }

    /// Moves on to the next round.
    pub fn bump_round(&mut self)
        requires
            old(self).spec_round() < u8::MAX,
        ensures
            final(self).spec_round() == old(self).spec_round() + 1,
            final(self).spec_players() == old(self).spec_players(),
            final(self).spec_system() == old(self).spec_system(),
            final(self).spec_number_of_rounds() == old(self).spec_number_of_rounds(),
            final(self).spec_result_scores() == old(self).spec_result_scores(),
    {
        self.current_round = self.current_round + 1;
    }

    /// Whether the first round has been reached.
    pub fn has_started(&self) -> (r: bool)
        ensures
            r == (self.spec_round() > 0),
    {
        self.current_round > 0
    }

    /// The number of competitors.
    pub fn player_count(&self) -> (r: usize)
        ensures
            r == self.spec_players().len(),
    {
        self.players.len()
    }

    /// The competitors, keyed by identifier.
    pub fn get_players(&self) -> (r: &BTreeMap<PlayerId, Player>)
        ensures
            r@ == self.spec_players(),
    {
        &self.players
    }

    /// The configured number of rounds.
    pub fn number_of_rounds(&self) -> (r: u8)
        ensures
            r == self.spec_number_of_rounds(),
    {
        self.number_of_rounds
    }

    /// The points for a win, a draw and a loss.
    pub fn result_scores(&self) -> (r: ResultScoreConfig)
        ensures
            r == self.spec_result_scores(),
    {
        self.result_scores
    }

    /// Starts the tournament: the first call assigns the rank numbers and
    /// sets the round to one; later calls change nothing.
    pub fn start(&mut self)
        requires
            old(self).spec_round() == 0 ==> old(self).spec_players().len() <= u16::MAX,
        ensures
            started_from(*old(self), *final(self)),
    {
        if self.current_round == 0 {
            self.assign_pairing_numbers();
            self.current_round = 1;
        }
    }

    /// The games of the current round under the configured discipline,
    /// starting the tournament first if it has not started.
    pub fn pair(&mut self) -> (r: Result<Vec<Pairing>, PairingError>)
        requires
            old(self).spec_round() == 0 ==> old(self).spec_players().len() <= u16::MAX,
        ensures
            started_from(*old(self), *final(self)),
            match r {
                Ok(games) => games_of(*final(self)) == Ok::<Seq<Pairing>, PairingError>(games@),
                Err(e) => games_of(*final(self)) == Err::<Seq<Pairing>, PairingError>(e),
            },
    {
        self.start();
        match self.pairing_system {
            PairingSystemType::BergerTable => BergerTablePairingSystem::pair_round(self),
            PairingSystemType::ClassicSwiss => DutchPairingSystem::pair_round(self),
            _ => Err(PairingError::UnimplementedPairingSystem),
        }
    }

    /// The competitors grouped by score.
    pub fn get_score_groups(&self) -> (r: ScoreGroups)
        ensures
            groups_by_score(self.spec_players(), r@),
    {
        let ids = self.player_ids();
        let n = ids.len();
        let ghost m = self.players@;
        let mut groups: ScoreGroups = BTreeMap::new();
        let mut i: usize = 0;
        while i < n
            invariant
                n == ids@.len(),
                ids@.no_duplicates(),
                ids@.to_set() == m.dom(),
                self.players@ == m,
                i <= n,
                forall|s: u8| #[trigger] groups@.contains_key(s) <==> score_seen(m, ids@, i as int, s),
                forall|s: u8|
                    #[trigger] groups@.contains_key(s) ==> group_ids(groups@[s]).no_duplicates()
                        && group_ids(groups@[s]).len() <= i,
                forall|s: u8, x: PlayerId|
                    #[trigger] groups@.contains_key(s) ==> (#[trigger] group_ids(groups@[s]).contains(x)
                        <==> (seen_before(ids@, i as int, x) && m[x].score == s)),
            decreases n - i,
        {
            let id = ids[i];
            assert(ids@.contains(id));
            let s = self.players.get(&id).unwrap().score;
            let ghost before = groups@;
            let old_group = groups.remove(&s);
            let group = match old_group {
                Some(g) => {
                    let mut g = g;
                    proof {
                        assert(before.contains_key(s));
                        assert(!group_ids(g).contains(id)) by {
                            if group_ids(g).contains(id) {
                                let q = choose|q: int| 0 <= q < i && ids@[q] == id;
                                assert(ids@[q] == ids@[i as int]);
                            }
                        }
                    }
                    g.push(id);
                    g
                },
                None => GroupIds::single(id),
            };
            proof {
                assert(group_ids(group).no_duplicates());
            }
            groups.insert(s, group);
            proof {
                assert forall|t: u8| #[trigger] groups@.contains_key(t) <==> score_seen(m, ids@, i + 1, t) by {
                    if t == s {
                        assert(m[ids@[i as int]].score == s);
                    } else if score_seen(m, ids@, i + 1, t) {
                        let q = choose|q: int| 0 <= q < i + 1 && #[trigger] m[ids@[q]].score == t;
                        assert(score_seen(m, ids@, i as int, t));
                    }
                }
                assert forall|t: u8, x: PlayerId|
                    #[trigger] groups@.contains_key(t) implies (#[trigger] group_ids(groups@[t]).contains(x)
                        <==> (seen_before(ids@, i + 1, x) && m[x].score == t)) by {
                    if seen_before(ids@, i + 1, x) && m[x].score == t {
                        let q = choose|q: int| 0 <= q < i + 1 && ids@[q] == x;
                        if q < i {
                            assert(seen_before(ids@, i as int, x));
                        }
                    }
                    if seen_before(ids@, i as int, x) {
                        let q = choose|q: int| 0 <= q < i && ids@[q] == x;
                        assert(seen_before(ids@, i + 1, x));
                        assert(x != id);
                        if m[x].score == t {
                            assert(m[ids@[q]].score == t);
                            assert(score_seen(m, ids@, i as int, t));
                        }
                    }
                    if t != s {
                        assert(before.contains_key(t));
                        assert(groups@[t] == before[t]);
                        if x == id {
                            assert(!seen_before(ids@, i as int, x)) by {
                                if seen_before(ids@, i as int, x) {
                                    let q = choose|q: int| 0 <= q < i && ids@[q] == x;
                                    assert(ids@[q] == ids@[i as int]);
                                }
                            }
                        }
                    }
                    if t == s && x == id {
                        assert(seen_before(ids@, i + 1, x));
                    }
                    assert(m[id].score == s);
                    if t == s {
                        let gs = group_ids(groups@[t]);
                        if before.contains_key(s) {
                            let bs = group_ids(before[s]);
                            assert(gs == bs.push(id));
                            if gs.contains(x) {
                                let a = choose|a: int| 0 <= a < gs.len() && gs[a] == x;
                                if a < bs.len() {
                                    assert(bs[a] == x);
                                    assert(bs.contains(x));
                                }
                            }
                            if bs.contains(x) {
                                let a = choose|a: int| 0 <= a < bs.len() && bs[a] == x;
                                assert(gs[a] == x);
                            }
                            if x == id {
                                assert(gs[bs.len() as int] == x);
                            }
                        } else {
                            assert(gs == seq![id]);
                            if gs.contains(x) {
                                assert(gs[0] == x);
                            }
                            if x == id {
                                assert(gs[0] == x);
                            }
                        }
                    }
                }
            }
            i = i + 1;
        }
        proof {
            let g = groups@;
            assert forall|t: u8| #[trigger] g.contains_key(t) <==> score_taken(m, t) by {
                if score_taken(m, t) {
                    let k = choose|k: PlayerId| #![trigger m[k]] m.contains_key(k) && m[k].score == t;
                    assert(ids@.to_set().contains(k));
                    let q = choose|q: int| 0 <= q < n && ids@[q] == k;
                    assert(score_seen(m, ids@, n as int, t));
                }
                if score_seen(m, ids@, n as int, t) {
                    let q = choose|q: int| 0 <= q < n && #[trigger] m[ids@[q]].score == t;
                    assert(ids@.to_set().contains(ids@[q]));
                }
            }
            assert forall|t: u8, x: PlayerId|
                #[trigger] g.contains_key(t) implies (#[trigger] group_ids(g[t]).contains(x) <==> (
                m.contains_key(x) && m[x].score == t)) by {
                if m.contains_key(x) {
                    assert(ids@.to_set().contains(x));
                    let q = choose|q: int| 0 <= q < n && ids@[q] == x;
                    assert(seen_before(ids@, n as int, x));
                }
                if seen_before(ids@, n as int, x) {
                    let q = choose|q: int| 0 <= q < n && ids@[q] == x;
                    assert(ids@.to_set().contains(ids@[q]));
                }
            }
        }
        groups
    }
}

impl Default for Tournament {
    /// An empty round-robin tournament of no rounds, scoring nothing.
    fn default() -> (r: Tournament)
        ensures
            r.spec_players() == Map::<PlayerId, Player>::empty(),
            r.spec_round() == 0,
            r.spec_system() == PairingSystemType::BergerTable,
            r.spec_number_of_rounds() == 0,
            r.spec_result_scores() == (0u8, 0u8, 0u8),
    {
        Tournament::new_with_result_scores(0, PairingSystemType::BergerTable, (0, 0, 0))
    }
}

/// `m` after inserting each competitor of `ps` under its identifier, in order.
pub open spec fn inserted_all(m: Map<PlayerId, Player>, ps: Seq<Player>) -> Map<PlayerId, Player>
    decreases ps.len(),
{
    if ps.len() == 0 {
        m
    } else {
        inserted_all(m, ps.drop_last()).insert(ps.last().info.id, ps.last())
    }
}

/// `b` is `a` after `start`: a tournament that had not started has its rank
/// numbers assigned and is in round one; a started one is unchanged.
pub open spec fn started_from(a: Tournament, b: Tournament) -> bool {
    &&& b.spec_system() == a.spec_system()
    &&& b.spec_number_of_rounds() == a.spec_number_of_rounds()
    &&& b.spec_result_scores() == a.spec_result_scores()
    &&& if a.spec_round() == 0 {
        &&& b.spec_round() == 1
        &&& b.spec_players().dom() == a.spec_players().dom()
        &&& forall|k: PlayerId|
            #[trigger] b.spec_players().contains_key(k) ==> same_but_rank(
                b.spec_players()[k],
                a.spec_players()[k],
            )
        &&& ranks_bijective(b.spec_players())
        &&& ranks_follow_identity(b.spec_players())
    } else {
        b.spec_round() == a.spec_round() && b.spec_players() == a.spec_players()
    }
}

/// What `pair` returns for a started tournament `t`: the round-robin games
/// of its round, the first Swiss round, or an error for a discipline or
/// round with no algorithm.
pub open spec fn games_of(t: Tournament) -> Result<Seq<Pairing>, PairingError> {
    let ranked = rank_order(t.spec_players());
    match t.spec_system() {
        PairingSystemType::BergerTable => Ok(round_robin_games(ranked, t.spec_round() as int)),
        PairingSystemType::ClassicSwiss => if t.spec_round() == 1 {
            Ok(first_round_games(ranked))
        } else {
            Err(PairingError::UnimplementedPairingSystem)
        },
        _ => Err(PairingError::UnimplementedPairingSystem),
    }
}

/// `b` is `a` with rank numbers assigned.
pub open spec fn rank_assigned(a: Map<PlayerId, Player>, b: Map<PlayerId, Player>) -> bool {
    &&& b.dom() == a.dom()
    &&& ranks_bijective(b)
    &&& ranks_follow_identity(b)
    &&& forall|k: PlayerId| #[trigger] b.contains_key(k) ==> same_but_rank(b[k], a[k])
}

/// A competitor's line in a listing: its identity and its score.
pub open spec fn player_line(p: Player) -> Seq<char> {
    info_line(p.info) + seq![' '] + decimal(p.score as nat)
}

/// The lines of the competitors `s` of `m`, in order.
pub open spec fn players_listing(m: Map<PlayerId, Player>, s: Seq<PlayerId>) -> Seq<char>
    decreases s.len(),
{
    if s.len() == 0 {
        Seq::empty()
    } else {
        players_listing(m, s.drop_last()) + player_line(m[s.last()]) + seq!['\n']
    }
}

/// The lines of withdrawn competitors with their round of withdrawal, or an
/// error when one of them is not a competitor of `m`.
pub open spec fn withdrawn_listing(m: Map<PlayerId, Player>, w: Seq<(PlayerId, u8)>) -> Result<
    Seq<char>,
    PairingError,
>
    decreases w.len(),
{
    if w.len() == 0 {
        Ok(Seq::empty())
    } else {
        match withdrawn_listing(m, w.drop_last()) {
            Ok(text) => if m.contains_key(w.last().0) {
                Ok(
                    text + player_line(m[w.last().0]) + seq![' '] + decimal(w.last().1 as nat)
                        + seq!['\n'],
                )
            } else {
                Err(PairingError::PlayerNotFound)
            },
            Err(e) => Err(e),
        }
    }
}

/// The opening lines of a tournament listing: rounds and points per result.
pub open spec fn listing_head(rounds: u8, current: u8, scores: ResultScoreConfig) -> Seq<char> {
    "Tournament\n\nNumber of rounds: "@ + decimal(rounds as nat) + "\nCurrent round: "@ + decimal(
        current as nat,
    ) + "\nWin/Draw/Lose scores: ("@ + decimal(scores.0 as nat) + ", "@ + decimal(
        scores.1 as nat,
    ) + ", "@ + decimal(scores.2 as nat) + ")\n"@
}

impl Tournament {
    /// The withdrawn competitors with their round of withdrawal.
    pub closed spec fn spec_withdrawn(&self) -> Seq<(PlayerId, u8)> {
        self.withdrawn_players@
    }

    /// A listing of the tournament: its settings, its withdrawn competitors
    /// and all competitors from the highest rank number down. Rank numbers
    /// are assigned first when the tournament has not started.
    #[verifier::rlimit(60)]
    pub fn as_string_csv_like(&mut self) -> (r: Result<String, PairingError>)
        requires
            old(self).spec_round() == 0 ==> old(self).spec_players().len() <= u16::MAX,
        ensures
            final(self).same_settings(old(self)),
            final(self).spec_withdrawn() == old(self).spec_withdrawn(),
            old(self).spec_round() > 0 ==> final(self).spec_players() == old(self).spec_players(),
            old(self).spec_round() == 0 ==> rank_assigned(
                old(self).spec_players(),
                final(self).spec_players(),
            ),
            ({
                let m = final(self).spec_players();
                let head = listing_head(
                    old(self).spec_number_of_rounds(),
                    old(self).spec_round(),
                    old(self).spec_result_scores(),
                ) + "\nWithdrawn players (count "@ + decimal(old(self).spec_withdrawn().len())
                    + "):\n"@ + "id name title rating score"@ + " round_widthdrawn\n"@;
                let fm = final(self).spec_players();
                match withdrawn_listing(m, old(self).spec_withdrawn()) {
                    Ok(w) => r matches Ok(text) && text@ == head + w + "\nPlayers:\n"@
                        + "id name title rating score"@ + "\n"@ + players_listing(
                        fm,
                        rank_order(fm).reverse(),
                    ),
                    Err(e) => r == Err::<String, PairingError>(e),
                }
            }),
    {
        proof {
            reveal_strlit("Tournament\n\nNumber of rounds: ");
            reveal_strlit("\nCurrent round: ");
            reveal_strlit("\nWin/Draw/Lose scores: (");
            reveal_strlit(", ");
            reveal_strlit(")\n");
            reveal_strlit("\nWithdrawn players (count ");
            reveal_strlit("):\n");
            reveal_strlit(" round_widthdrawn\n");
            reveal_strlit("\nPlayers:\n");
            reveal_strlit("\n");
            reveal_strlit(" ");
            reveal_strlit("id name title rating score");
        }
        if self.current_round == 0 {
            self.assign_pairing_numbers();
        }
        let mut s = "Tournament\n\nNumber of rounds: ".to_owned();
        append_decimal(&mut s, self.number_of_rounds as u64);
        s.append("\nCurrent round: ");
        append_decimal(&mut s, self.current_round as u64);
        s.append("\nWin/Draw/Lose scores: (");
        append_decimal(&mut s, self.result_scores.0 as u64);
        s.append(", ");
        append_decimal(&mut s, self.result_scores.1 as u64);
        s.append(", ");
        append_decimal(&mut s, self.result_scores.2 as u64);
        s.append(")\n");
        s.append("\nWithdrawn players (count ");
        append_decimal(&mut s, self.withdrawn_players.len() as u64);
        s.append("):\n");
        s.append(Player::csv_header());
        s.append(" round_widthdrawn\n");
        let ghost m = self.players@;
        let ghost w = self.withdrawn_players@;
        let ghost head = s@;
        let mut i: usize = 0;
        while i < self.withdrawn_players.len()
            invariant
                self.players@ == m,
                self.withdrawn_players@ == w,
                self.same_settings(old(self)),
                old(self).spec_round() > 0 ==> m == old(self).spec_players(),
                old(self).spec_round() == 0 ==> rank_assigned(old(self).spec_players(), m),
                i <= w.len(),
                withdrawn_listing(m, w.subrange(0, i as int)) is Ok,
                s@ == head + withdrawn_listing(m, w.subrange(0, i as int))->Ok_0,
            decreases w.len() - i,
        {
            proof {
                reveal_strlit(" ");
                reveal_strlit("\n");
            }
            let (id, round) = self.withdrawn_players[i];
            assert(w.subrange(0, i as int + 1).drop_last() =~= w.subrange(0, i as int));
            match self.players.get(&id) {
                Some(p) => {
                    let line = p.as_string_csv_like();
                    s.append(line.as_str());
                    s.append(" ");
                    append_decimal(&mut s, round as u64);
                    s.append("\n");
                    assert(s@ =~= head + withdrawn_listing(m, w.subrange(0, i as int + 1))->Ok_0);
                },
                None => {
                    proof {
                        lemma_withdrawn_error_stays(m, w, i as int + 1);
                    }
                    return Err(PairingError::PlayerNotFound);
                },
            }
            i = i + 1;
        }
        assert(w.subrange(0, w.len() as int) =~= w);
        s.append("\nPlayers:\n");
        s.append(Player::csv_header());
        s.append("\n");
        let ranked = self.ranked_ids();
        let ghost fm = self.players@;
        let ghost rev = ranked@.reverse();
        let ghost mid = s@;
        let n = ranked.len();
        let mut j: usize = 0;
        while j < n
            invariant
                n == ranked@.len(),
                rev == ranked@.reverse(),
                self.players@ == fm,
                is_rank_order(fm, ranked@),
                j <= n,
                s@ == mid + players_listing(fm, rev.subrange(0, j as int)),
            decreases n - j,
        {
            proof {
                reveal_strlit("\n");
            }
            let id = ranked[n - 1 - j];
            assert(fm.contains_key(ranked@[n - 1 - j]));
            let p = self.players.get(&id).unwrap();
            let line = p.as_string_csv_like();
            s.append(line.as_str());
            s.append("\n");
            assert(rev.subrange(0, j as int + 1).drop_last() =~= rev.subrange(0, j as int));
            assert(rev[j as int] == id);
            assert(s@ =~= mid + players_listing(fm, rev.subrange(0, j as int + 1)));
            j = j + 1;
        }
        assert(rev.subrange(0, n as int) =~= rev);
        Ok(s)
    }
}

/// Once a prefix of the withdrawn list fails, every longer prefix fails
/// with the same error.
proof fn lemma_withdrawn_error_stays(m: Map<PlayerId, Player>, w: Seq<(PlayerId, u8)>, i: int)
    requires
        1 <= i <= w.len(),
        withdrawn_listing(m, w.subrange(0, i - 1)) is Ok,
        !m.contains_key(w[i - 1].0),
    ensures
        withdrawn_listing(m, w) == Err::<Seq<char>, PairingError>(PairingError::PlayerNotFound),
    decreases w.len() - i,
{
    assert(w.subrange(0, i).drop_last() =~= w.subrange(0, i - 1));
    if i == w.len() {
        assert(w.subrange(0, i) =~= w);
    } else {
        lemma_withdrawn_error_prefix(m, w, i);
    }
}

/// An error on a prefix of the withdrawn list is the error of the whole list.
proof fn lemma_withdrawn_error_prefix(m: Map<PlayerId, Player>, w: Seq<(PlayerId, u8)>, i: int)
    requires
        1 <= i <= w.len(),
        withdrawn_listing(m, w.subrange(0, i)) == Err::<Seq<char>, PairingError>(
            PairingError::PlayerNotFound,
        ),
    ensures
        withdrawn_listing(m, w) == Err::<Seq<char>, PairingError>(PairingError::PlayerNotFound),
    decreases w.len() - i,
{
    if i == w.len() {
        assert(w.subrange(0, i) =~= w);
    } else {
        assert(w.subrange(0, i + 1).drop_last() =~= w.subrange(0, i));
        lemma_withdrawn_error_prefix(m, w, i + 1);
    }
}

} // verus!
