use std::collections::BTreeSet;

use swissmilk::chess_types::{CodeError, Color, ColorPreference, ColorPreferenceLevel, Title};
use swissmilk::pairing::Pairing;
use swissmilk::pairing_system::{PairingError, PairingSystemType};
use swissmilk::player::{Player, PlayerId, PlayerInfo};
use swissmilk::random::{rand, NewRandom, RandomState};
use swissmilk::tournament::Tournament;

fn field(count: u64, system: PairingSystemType) -> Tournament {
    let mut t = Tournament::new(9, system);
    for id in 1..=count {
        // competitor 1 is the strongest
        let rating = 2800 - (id as u16) * 50;
        t.add_player(Player::new(id, &format!("p{id}"), Title::Untitled, rating));
    }
    t
}

fn pair_set(games: &[Pairing]) -> Vec<(PlayerId, Option<PlayerId>)> {
    games.iter().map(|g| (g.left, g.right)).collect()
}

#[test]
fn start_assigns_each_rank_once() {
    let mut t = Tournament::new(5, PairingSystemType::BergerTable);
    t.add_player(Player::new(10, "x", Title::GM, 2500));
    t.add_player(Player::new(20, "y", Title::FM, 2300));
    t.add_player(Player::new(30, "z", Title::IM, 2700));
    t.add_player(Player::new(40, "w", Title::Untitled, 1900));
    t.add_player(Player::new(50, "v", Title::CM, 2100));
    t.start();
    let mut ranks: Vec<u16> = t.get_players().values().map(|p| p.pairing_number).collect();
    ranks.sort();
    assert_eq!(ranks, vec![1, 2, 3, 4, 5]);
    assert_eq!(t.get_player(30).unwrap().pairing_number, 1);
    assert_eq!(t.get_player(10).unwrap().pairing_number, 2);
    assert_eq!(t.get_player(40).unwrap().pairing_number, 5);
    assert_eq!(t.current_round(), 1);
    assert!(t.has_started());
}

#[test]
fn ranking_breaks_ties_by_title_then_name() {
    let mut t = Tournament::new(3, PairingSystemType::BergerTable);
    t.add_player(Player::new(1, "b", Title::IM, 2400));
    t.add_player(Player::new(2, "a", Title::IM, 2400));
    t.add_player(Player::new(3, "c", Title::GM, 2400));
    t.start();
    assert_eq!(t.get_player(3).unwrap().pairing_number, 1);
    assert_eq!(t.get_player(1).unwrap().pairing_number, 2);
    assert_eq!(t.get_player(2).unwrap().pairing_number, 3);
}

#[test]
fn start_twice_keeps_ranks() {
    let mut t = field(4, PairingSystemType::BergerTable);
    t.start();
    t.add_player(Player::new(9, "late", Title::GM, 2900));
    t.start();
    assert_eq!(t.get_player(1).unwrap().pairing_number, 1);
    assert_eq!(t.get_player(9).unwrap().pairing_number, 0);
    assert_eq!(t.current_round(), 1);
}

#[test]
fn round_robin_eight_meets_everyone_once() {
    let mut t = field(8, PairingSystemType::BergerTable);
    let mut seen: BTreeSet<(PlayerId, PlayerId)> = BTreeSet::new();
    for round in 1..=7u8 {
        let games = t.pair().unwrap();
        assert_eq!(games.len(), 4);
        for g in &games {
            let r = g.right.unwrap();
            let key = (g.left.min(r), g.left.max(r));
            assert!(seen.insert(key), "pair repeated in round {round}");
        }
        if round < 7 {
            t.bump_round();
        }
    }
    assert_eq!(seen.len(), 28);
}

#[test]
fn round_robin_nine_gives_each_one_bye() {
    let mut t = field(9, PairingSystemType::BergerTable);
    let mut byes = vec![0u32; 10];
    let mut seen: BTreeSet<(PlayerId, PlayerId)> = BTreeSet::new();
    for round in 1..=9u8 {
        let games = t.pair().unwrap();
        assert_eq!(games.len(), 5);
        for g in &games {
            match g.right {
                None => {
                    byes[g.left as usize] += 1;
                    assert_eq!(g.color_left, Color::NoColor);
                    assert_eq!(g.color_right, Color::NoColor);
                }
                Some(r) => {
                    assert!(seen.insert((g.left.min(r), g.left.max(r))));
                }
            }
        }
        if round < 9 {
            t.bump_round();
        }
    }
    assert!(byes[1..].iter().all(|&b| b == 1));
    assert_eq!(seen.len(), 36);
}

#[test]
fn round_parity_swaps_colors() {
    let mut t = field(6, PairingSystemType::BergerTable);
    let odd = t.pair().unwrap();
    assert!(odd.iter().all(|g| g.color_left == Color::White && g.color_right == Color::Black));
    t.bump_round();
    let even = t.pair().unwrap();
    assert!(even.iter().all(|g| g.color_left == Color::Black && g.color_right == Color::White));
}

#[test]
fn scenario_round_robin_eight() {
    let mut t = field(8, PairingSystemType::BergerTable);
    let r1 = t.pair().unwrap();
    assert_eq!(
        pair_set(&r1),
        vec![(1, Some(8)), (2, Some(7)), (3, Some(6)), (4, Some(5))]
    );
    assert!(r1.iter().all(|g| g.color_left == Color::White));
    t.bump_round();
    let r2 = t.pair().unwrap();
    assert_eq!(
        pair_set(&r2),
        vec![(1, Some(2)), (3, Some(8)), (4, Some(7)), (5, Some(6))]
    );
    assert!(r2.iter().all(|g| g.color_left == Color::Black));
}

#[test]
fn scenario_round_robin_nine_first_round() {
    let mut t = field(9, PairingSystemType::BergerTable);
    let r1 = t.pair().unwrap();
    assert_eq!(
        pair_set(&r1),
        vec![(1, None), (2, Some(9)), (3, Some(8)), (4, Some(7)), (5, Some(6))]
    );
}

#[test]
fn swiss_first_round_even() {
    let mut t = field(4, PairingSystemType::ClassicSwiss);
    let games = t.pair().unwrap();
    assert_eq!(
        games,
        vec![
            Pairing::new(4, Some(1), Color::Black, Color::White),
            Pairing::new(3, Some(2), Color::Black, Color::White),
        ]
    );
}

#[test]
fn swiss_first_round_odd_gives_bye() {
    let mut t = field(5, PairingSystemType::ClassicSwiss);
    let games = t.pair().unwrap();
    assert_eq!(
        games,
        vec![
            Pairing::new(5, Some(2), Color::White, Color::Black),
            Pairing::new(4, Some(3), Color::White, Color::Black),
            Pairing::new(1, None, Color::NoColor, Color::NoColor),
        ]
    );
}

#[test]
fn swiss_later_round_is_unimplemented() {
    let mut t = field(4, PairingSystemType::ClassicSwiss);
    t.pair().unwrap();
    t.bump_round();
    assert_eq!(t.pair(), Err(PairingError::UnimplementedPairingSystem));
}

#[test]
fn other_systems_are_unimplemented() {
    for system in [
        PairingSystemType::DubovSwiss,
        PairingSystemType::BursteinSwiss,
        PairingSystemType::Lim,
        PairingSystemType::Unspecified,
    ] {
        let mut t = field(4, system);
        assert_eq!(t.pair(), Err(PairingError::UnimplementedPairingSystem));
        assert!(t.has_started());
    }
}

#[test]
fn empty_round_robin_has_no_games() {
    let mut t = Tournament::new(1, PairingSystemType::BergerTable);
    assert_eq!(t.pair(), Ok(vec![]));
}

fn with_history(history: Vec<Color>, diff: i8) -> Player {
    let mut p = Player::new(1, "p", Title::Untitled, 1500);
    p.color_history = history;
    p.color_difference = diff;
    p
}

#[test]
fn preference_absolute_from_imbalance() {
    let p = with_history(vec![Color::White, Color::Black, Color::White, Color::White], 2);
    assert_eq!(
        p.get_dutch_color_preference(),
        ColorPreference::new_with_width(Color::Black, ColorPreferenceLevel::Absolute, 2)
    );
    assert_eq!(
        p.get_color_preference(),
        ColorPreference::new(Color::Black, ColorPreferenceLevel::Absolute)
    );
    let q = with_history(vec![Color::Black, Color::Black], -2);
    assert_eq!(
        q.get_dutch_color_preference(),
        ColorPreference::new_with_width(Color::White, ColorPreferenceLevel::Absolute, 2)
    );
}

#[test]
fn preference_absolute_after_two_same_colors() {
    let p = with_history(vec![Color::White, Color::Black, Color::Black], -1);
    assert_eq!(
        p.get_dutch_color_preference(),
        ColorPreference::new(Color::White, ColorPreferenceLevel::Absolute)
    );
}

#[test]
fn preference_strong_from_imbalance_of_one() {
    let p = with_history(vec![Color::White], 1);
    assert_eq!(
        p.get_dutch_color_preference(),
        ColorPreference::new(Color::Black, ColorPreferenceLevel::Strong)
    );
    let q = with_history(vec![Color::Black], -1);
    assert_eq!(
        q.get_dutch_color_preference(),
        ColorPreference::new(Color::White, ColorPreferenceLevel::Strong)
    );
}

#[test]
fn preference_mild_and_none() {
    let p = with_history(vec![Color::White], 0);
    assert_eq!(
        p.get_dutch_color_preference(),
        ColorPreference::new(Color::Black, ColorPreferenceLevel::Mild)
    );
    let q = with_history(vec![], 0);
    assert_eq!(
        q.get_dutch_color_preference(),
        ColorPreference::new(Color::NoColor, ColorPreferenceLevel::NoPreference)
    );
}

#[test]
fn preference_width_of_extreme_imbalance() {
    let p = with_history(vec![], -128);
    assert_eq!(
        p.get_dutch_color_preference(),
        ColorPreference::new_with_width(Color::White, ColorPreferenceLevel::Absolute, 128)
    );
}

#[test]
fn score_groups_partition_competitors() {
    let mut t = Tournament::new(3, PairingSystemType::BergerTable);
    let scores = [(1u64, 2u8), (2, 0), (3, 2), (4, 1), (5, 0), (6, 2)];
    for (id, score) in scores {
        let mut p = Player::new(id, "p", Title::Untitled, 1500);
        p.score = score;
        t.add_player(p);
    }
    let groups = t.get_score_groups();
    assert_eq!(groups.keys().copied().collect::<Vec<_>>(), vec![0, 1, 2]);
    assert_eq!(groups[&0].ids(), vec![2, 5]);
    assert_eq!(groups[&1].ids(), vec![4]);
    assert_eq!(groups[&2].ids(), vec![1, 3, 6]);
    let mut all: Vec<PlayerId> = groups.values().flat_map(|g| g.ids()).collect();
    all.sort();
    assert_eq!(all, vec![1, 2, 3, 4, 5, 6]);
}

#[test]
fn score_groups_of_empty_tournament() {
    let t = Tournament::new(3, PairingSystemType::BergerTable);
    assert!(t.get_score_groups().is_empty());
}

#[test]
fn score_difference_cases() {
    let mut t = Tournament::new(3, PairingSystemType::BergerTable);
    let mut a = Player::new(1, "a", Title::Untitled, 1500);
    a.score = 3;
    let mut b = Player::new(2, "b", Title::Untitled, 1500);
    b.score = 7;
    t.add_player(a);
    t.add_player(b);
    let game = Pairing::new(1, Some(2), Color::White, Color::Black);
    assert_eq!(game.get_score_difference(&t), Ok(4));
    let flipped = Pairing::new(2, Some(1), Color::White, Color::Black);
    assert_eq!(flipped.get_score_difference(&t), Ok(4));
    let bye = Pairing::new(1, None, Color::NoColor, Color::NoColor);
    assert_eq!(bye.get_score_difference(&t), Ok(0));
    let missing = Pairing::new(1, Some(9), Color::White, Color::Black);
    assert_eq!(missing.get_score_difference(&t), Err(PairingError::PlayerNotFound));
}

#[test]
fn adding_same_id_replaces() {
    let mut t = Tournament::new(3, PairingSystemType::BergerTable);
    t.add_players(vec![
        Player::new(1, "first", Title::Untitled, 1500),
        Player::new(2, "other", Title::Untitled, 1600),
        Player::new(1, "second", Title::FM, 2300),
    ]);
    assert_eq!(t.player_count(), 2);
    assert_eq!(t.get_player(1).unwrap().info.name, "second");
    assert!(t.get_player(3).is_none());
}

#[test]
fn codes_round_trip_and_reject() {
    assert_eq!(Color::from_code(1), Ok(Color::White));
    assert_eq!(Color::from_code(2), Ok(Color::Black));
    assert_eq!(Color::from_code(3), Err(CodeError::InvalidColorCode));
    assert_eq!(Color::Black.to_code(), 2);
    assert_eq!(Title::from_code(8), Ok(Title::GM));
    assert_eq!(Title::from_code(9), Err(CodeError::InvalidTitleCode));
    assert_eq!(Title::WIM.to_code(), 4);
    assert_eq!(Color::White.not(), Color::Black);
    assert_eq!(Color::NoColor.not(), Color::NoColor);
}

#[test]
fn new_tournament_defaults() {
    let t = Tournament::new(7, PairingSystemType::ClassicSwiss);
    assert_eq!(t.result_scores(), (2, 1, 0));
    assert_eq!(t.number_of_rounds(), 7);
    assert_eq!(t.get_pairing_system_type(), PairingSystemType::ClassicSwiss);
    assert!(!t.has_started());
    let u = Tournament::new_with_result_scores(5, PairingSystemType::BergerTable, (3, 1, 0));
    assert_eq!(u.result_scores(), (3, 1, 0));
}

#[test]
fn generator_is_reproducible() {
    let mut rng = RandomState::new(0);
    let first: u32 = rand(&mut rng);
    assert_eq!(first, 38);
    assert_eq!(rng.next, 2_531_011);
    let mut again = RandomState::new(0);
    let same: u32 = rand(&mut again);
    assert_eq!(same, first);
    let mut wide = RandomState::new(1);
    let v: u64 = rand(&mut wide);
    let expected = 6_364_136_223_846_793_005u64.wrapping_add(1_442_695_040_888_963_407);
    assert_eq!(v, (expected >> 32) & 0x7fff_ffff);
    assert_eq!(wide.next, expected as usize);
}

#[test]
fn random_players_are_fresh_and_in_range() {
    let mut rng = RandomState::new(12345);
    for _ in 0..20 {
        let p = Player::new_random(&mut rng);
        assert!((1000..3000).contains(&p.info.rating));
        assert!(p.info.name.starts_with("Player"));
        assert_eq!(p.score, 0);
        assert_eq!(p.pairing_number, 0);
    }
}

#[test]
fn listing_lines() {
    let mut p = Player::new(42, "Ann", Title::IM, 2405);
    p.score = 3;
    assert_eq!(p.info.as_string_csv_like(), "42 Ann IM 2405");
    assert_eq!(p.as_string_csv_like(), "42 Ann IM 2405 3");
    assert_eq!(Player::csv_header(), "id name title rating score");
    assert_eq!(PlayerInfo::csv_header(), "id name title rating");
    let q = Player::new(7, "Bo", Title::Untitled, 1000);
    assert_eq!(q.info.as_string_csv_like(), "7 Bo None 1000");
}

#[test]
fn tournament_listing_before_start() {
    let mut t = Tournament::new(4, PairingSystemType::BergerTable);
    t.add_player(Player::new(1, "a", Title::Untitled, 1500));
    t.add_player(Player::new(2, "b", Title::GM, 2600));
    let text = t.as_string_csv_like().unwrap();
    let expected = "Tournament\n\nNumber of rounds: 4\nCurrent round: 0\nWin/Draw/Lose scores: (2, 1, 0)\n\
\nWithdrawn players (count 0):\nid name title rating score round_widthdrawn\n\
\nPlayers:\nid name title rating score\n1 a None 1500 0\n2 b GM 2600 0\n";
    assert_eq!(text, expected);
    assert_eq!(t.get_player(2).unwrap().pairing_number, 1);
    assert!(!t.has_started());
}

#[test]
fn player_mut_changes_in_place() {
    let mut t = field(3, PairingSystemType::BergerTable);
    t.get_player_mut(2).unwrap().score = 4;
    assert_eq!(t.get_player(2).unwrap().score, 4);
    assert!(t.get_player_mut(99).is_none());
    t.get_players_mut().remove(&3);
    assert_eq!(t.player_count(), 2);
}

#[test]
fn pairing_follows_rank_not_identifier() {
    let mut t = Tournament::new(3, PairingSystemType::BergerTable);
    for id in 1..=4u64 {
        // the higher the identifier, the stronger the competitor
        t.add_player(Player::new(id, &format!("q{id}"), Title::Untitled, 1000 + id as u16 * 100));
    }
    let games = t.pair().unwrap();
    assert_eq!(pair_set(&games), vec![(4, Some(1)), (3, Some(2))]);
    let mut swiss = Tournament::new(3, PairingSystemType::ClassicSwiss);
    for id in 1..=4u64 {
        swiss.add_player(Player::new(id, &format!("q{id}"), Title::Untitled, 1000 + id as u16 * 100));
    }
    assert_eq!(pair_set(&swiss.pair().unwrap()), vec![(1, Some(4)), (2, Some(3))]);
}
