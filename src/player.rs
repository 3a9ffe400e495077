use vstd::prelude::*;

use vstd::string::StringExecFns;

use crate::chess_types::{
    Color,
    ColorPreference,
    ColorPreferenceLevel,
    Title,
    opposite,
    title_rank,
    title_text,
};
use crate::random::{NewRandom, RandomState, RandInt, rand};
use crate::text::{append_decimal, decimal, to_decimal};

verus! {

/// Identifier of a competitor; `0` is reserved for "no opponent".
pub type PlayerId = u64;

/// The fixed identity of a competitor.
#[derive(Debug, Clone, Hash, PartialEq, Eq)]
pub struct PlayerInfo {
    pub id: PlayerId,
    pub name: String,
    pub rating: u16,
    pub title: Title,
}

/// A competitor's entry in a tournament, with its running state.
#[derive(Debug, Clone)]
pub struct Player {
    pub info: PlayerInfo,
    pub score: u8,
    pub previous_opponents: Vec<PlayerId>,
    pub color_history: Vec<Color>,
    pub color_difference: i8,
    pub has_bye: bool,
    pub pairing_number: u16,
    pub downfloats: u8,
    pub upfloats: u8,
    pub history: Vec<PlayerId>,
}

/// Whether a color is one that a game is played with.
pub open spec fn is_played(c: Color) -> bool {
    c == Color::White || c == Color::Black
}

/// The color that brings a non-zero color difference back towards zero.
pub open spec fn balancing_color(diff: i8) -> Color {
    if diff < 0 {
        Color::White
    } else {
        Color::Black
    }
}

/// The magnitude of a color difference.
pub open spec fn diff_width(diff: i8) -> u8 {
    if diff < 0 {
        (-(diff as int)) as u8
    } else {
        diff as u8
    }
}

/// Whether the last two colors of a history are the same played color.
pub open spec fn repeats_last_color(h: Seq<Color>) -> bool {
    h.len() > 1 && h[h.len() - 1] == h[h.len() - 2] && is_played(h[h.len() - 1])
}

/// The color preference of a competitor with color history `h` and color
/// difference `diff` (White games minus Black games), with the size of the
/// imbalance recorded when it alone makes the preference absolute.
pub open spec fn dutch_preference(h: Seq<Color>, diff: i8) -> ColorPreference {
    if diff > 1 || diff < -1 {
        ColorPreference {
            color: balancing_color(diff),
            level: ColorPreferenceLevel::Absolute,
            width: diff_width(diff),
        }
    } else if repeats_last_color(h) {
        ColorPreference {
            color: opposite(h[h.len() - 1]),
            level: ColorPreferenceLevel::Absolute,
            width: 0,
        }
    } else if diff == 1 || diff == -1 {
        ColorPreference {
            color: balancing_color(diff),
            level: ColorPreferenceLevel::Strong,
            width: 0,
        }
    } else if h.len() > 0 {
        ColorPreference {
            color: opposite(h[h.len() - 1]),
            level: ColorPreferenceLevel::Mild,
            width: 0,
        }
    } else {
        ColorPreference {
            color: Color::NoColor,
            level: ColorPreferenceLevel::NoPreference,
            width: 0,
        }
    }
}

/// The same preference without the imbalance width.
pub open spec fn plain_preference(h: Seq<Color>, diff: i8) -> ColorPreference {
    ColorPreference { width: 0, ..dutch_preference(h, diff) }
}

/// The listing line of an identity: identifier, name, title and rating,
/// separated by spaces.
pub open spec fn info_line(i: PlayerInfo) -> Seq<char> {
    decimal(i.id as nat) + seq![' '] + i.name@ + seq![' '] + title_text(i.title) + seq![' ']
        + decimal(i.rating as nat)
}

/// Generated identities are named with this prefix and a number.
pub open spec fn generated_name(n: nat) -> Seq<char> {
    seq!['P', 'l', 'a', 'y', 'e', 'r'] + decimal(n)
}

impl PlayerInfo {
    /// The identity as a line of a listing.
    pub fn as_string_csv_like(&self) -> (r: String)
        ensures
            r@ == info_line(*self),
    {
        proof {
            reveal_strlit(" ");
        }
        let mut s = to_decimal(self.id);
        s.append(" ");
        s.append(self.name.as_str());
        s.append(" ");
        s.append(self.title.abbreviation());
        s.append(" ");
        append_decimal(&mut s, self.rating as u64);
        s
    }

    /// The header line of a listing of identities.
    pub fn csv_header() -> (r: &'static str)
        ensures
            r@ == seq!['i', 'd', ' ', 'n', 'a', 'm', 'e', ' ', 't', 'i', 't', 'l', 'e', ' ', 'r', 'a', 't', 'i', 'n', 'g'],
    {
        proof {
            reveal_strlit("id name title rating");
        }
        "id name title rating"
    }

    pub fn new(id: PlayerId, name: &str, title: Title, rating: u16) -> (r: PlayerInfo)
        ensures
            r.id == id,
            r.name@ == name@,
            r.title == title,
            r.rating == rating,
    {
        PlayerInfo { id, name: name.to_owned(), title, rating }
    }
}

impl Player {
    /// A fresh competitor: no score, no games, no rank yet.
    pub fn new(id: PlayerId, name: &str, title: Title, rating: u16) -> (r: Player)
        ensures
            r.info.id == id,
            r.info.name@ == name@,
            r.info.title == title,
            r.info.rating == rating,
            r.is_fresh(),
    {
        Player {
            info: PlayerInfo::new(id, name, title, rating),
            score: 0,
            previous_opponents: Vec::new(),
            color_history: Vec::new(),
            color_difference: 0,
            has_bye: false,
            pairing_number: 0,
            downfloats: 0,
            upfloats: 0,
            history: Vec::new(),
        }
    }

    /// Everything but the identity is at its starting value.
    pub open spec fn is_fresh(&self) -> bool {
        &&& self.score == 0
        &&& self.previous_opponents@.len() == 0
        &&& self.color_history@.len() == 0
        &&& self.color_difference == 0
        &&& !self.has_bye
        &&& self.pairing_number == 0
        &&& self.downfloats == 0
        &&& self.upfloats == 0
        &&& self.history@.len() == 0
    }

    /// The color preference under the Dutch rules, with the imbalance width.
    pub fn get_dutch_color_preference(&self) -> (r: ColorPreference)
        ensures
            r == dutch_preference(self.color_history@, self.color_difference),
    {
        let chl = self.color_history.len();
        let diff = self.color_difference;
        if diff > 1 {
            return ColorPreference::new_with_width(
                Color::Black,
                ColorPreferenceLevel::Absolute,
                diff as u8,
            );
        }
        if diff < -1 {
            let width: u8 = (-(diff as i16)) as u8;
            return ColorPreference::new_with_width(
                Color::White,
                ColorPreferenceLevel::Absolute,
                width,
            );
        }
        if chl > 1 && self.color_history[chl - 1] == self.color_history[chl - 2] {
            match self.color_history[chl - 1] {
                Color::White => {
                    return ColorPreference::new(Color::Black, ColorPreferenceLevel::Absolute);
                },
                Color::Black => {
                    return ColorPreference::new(Color::White, ColorPreferenceLevel::Absolute);
                },
                Color::NoColor => {},
            }
        }
        if diff == 1 {
            return ColorPreference::new(Color::Black, ColorPreferenceLevel::Strong);
        }
        if diff == -1 {
            return ColorPreference::new(Color::White, ColorPreferenceLevel::Strong);
        }
        if chl > 0 {
            return ColorPreference::new(
                self.color_history[chl - 1].not(),
                ColorPreferenceLevel::Mild,
            );
        }
        ColorPreference::new(Color::NoColor, ColorPreferenceLevel::NoPreference)
    }

    /// The competitor as a line of a listing: its identity and its score.
    pub fn as_string_csv_like(&self) -> (r: String)
        ensures
            r@ == info_line(self.info) + seq![' '] + decimal(self.score as nat),
    {
        proof {
            reveal_strlit(" ");
        }
        let mut s = self.info.as_string_csv_like();
        s.append(" ");
        append_decimal(&mut s, self.score as u64);
        s
    }

    /// The header line of a listing of competitors.
    pub fn csv_header() -> (r: &'static str)
        ensures
            r@ == seq!['i', 'd', ' ', 'n', 'a', 'm', 'e', ' ', 't', 'i', 't', 'l', 'e', ' ', 'r', 'a', 't', 'i', 'n', 'g', ' ', 's', 'c', 'o', 'r', 'e'],
    {
        proof {
            reveal_strlit("id name title rating score");
        }
        "id name title rating score"
    }

    /// The color preference without the imbalance width.
    pub fn get_color_preference(&self) -> (r: ColorPreference)
        ensures
            r == plain_preference(self.color_history@, self.color_difference),
    {
        let p = self.get_dutch_color_preference();
        ColorPreference::new(p.color, p.level)
    }
}

/// The priority of the rules: an imbalance of two or more decides alone,
/// whatever the history; a balanced competitor who last played White mildly
/// prefers Black; a competitor with no history and no imbalance has no
/// preference.
pub proof fn lemma_preference_priority(h: Seq<Color>, diff: i8)
    ensures
        diff >= 2 ==> dutch_preference(h, diff).color == Color::Black && dutch_preference(
            h,
            diff,
        ).level == ColorPreferenceLevel::Absolute,
        diff <= -2 ==> dutch_preference(h, diff).color == Color::White && dutch_preference(
            h,
            diff,
        ).level == ColorPreferenceLevel::Absolute,
        diff == 0 && h.len() > 0 && h.last() == Color::White && !repeats_last_color(h)
            ==> dutch_preference(h, diff).color == Color::Black && dutch_preference(h, diff).level
            == ColorPreferenceLevel::Mild,
        diff == 0 && h.len() == 0 ==> dutch_preference(h, diff).color == Color::NoColor
            && dutch_preference(h, diff).level == ColorPreferenceLevel::NoPreference,
{
}

impl Default for PlayerInfo {
    /// The identity with identifier zero, no name, no title and rating zero.
    fn default() -> (r: PlayerInfo)
        ensures
            r.id == 0,
            r.name@ == Seq::<char>::empty(),
            r.title == Title::Untitled,
            r.rating == 0,
    {
        proof {
            reveal_strlit("");
        }
        PlayerInfo::new(0, "", Title::Untitled, 0)
    }
}

impl Default for Player {
    /// A fresh competitor with the default identity.
    fn default() -> (r: Player)
        ensures
            r.info.id == 0,
            r.info.name@ == Seq::<char>::empty(),
            r.info.title == Title::Untitled,
            r.info.rating == 0,
            r.is_fresh(),
    {
        proof {
            reveal_strlit("");
        }
        Player::new(0, "", Title::Untitled, 0)
    }
}

impl NewRandom for PlayerInfo {
    /// An identity drawn from the generator: identifier, name number,
    /// rating in `1000..3000` and title, in that order of draws.
    fn new_random(rng: &mut RandomState) -> (r: PlayerInfo)
        ensures
            ({
                let s0 = old(rng).next;
                let s1 = <u64 as RandInt>::next_state(s0);
                let s2 = <u32 as RandInt>::next_state(s1);
                let s3 = <u32 as RandInt>::next_state(s2);
                let s4 = <u32 as RandInt>::next_state(s3);
                &&& r.id == <u64 as RandInt>::drawn(s0)
                &&& r.name@ == generated_name((<u32 as RandInt>::drawn(s1) % 65535) as nat)
                &&& r.rating == (<u32 as RandInt>::drawn(s2) as u16) % 2000 + 1000
                &&& title_rank(r.title) == <u32 as RandInt>::drawn(s3) % 9
                &&& final(rng).next == <u32 as RandInt>::next_state(s3)
            }),
    {
        proof {
            reveal_strlit("Player");
        }
        let id: u64 = rand(rng);
        let number: u32 = rand(rng);
        let mut name = "Player".to_owned();
        append_decimal(&mut name, (number % 65535) as u64);
        let draw: u32 = rand(rng);
        let rating: u16 = (draw as u16) % 2000 + 1000;
        let code: u32 = rand(rng);
        let title = match Title::from_code((code % 9) as u8) {
            Ok(t) => t,
            Err(_) => Title::Untitled,
        };
        PlayerInfo { id, name, rating, title }
    }
}

impl NewRandom for Player {
    /// A fresh competitor with an identity drawn from the generator.
    fn new_random(rng: &mut RandomState) -> (r: Player)
        ensures
            r.is_fresh(),
    {
        let info = PlayerInfo::new_random(rng);
        Player {
            info,
            score: 0,
            previous_opponents: Vec::new(),
            color_history: Vec::new(),
            color_difference: 0,
            has_bye: false,
            pairing_number: 0,
            downfloats: 0,
            upfloats: 0,
            history: Vec::new(),
        }
    }
}

} // verus!
