use vstd::prelude::*;

verus! {

/// Chess titles, ordered from none to grandmaster.
#[derive(Debug, Clone, Copy, Hash, PartialEq, Eq, PartialOrd, Ord, Default)]
pub enum Title {
    #[default]
    Untitled,
    WCM,
    WFM,
    CM,
    WIM,
    FM,
    WGM,
    IM,
    GM,
}

/// The color a competitor plays with; `NoColor` stands for no game.
#[derive(Debug, Clone, Copy, Hash, PartialEq, Eq, Structural, Default)]
pub enum Color {
    #[default]
    NoColor,
    White,
    Black,
}

/// How strongly a competitor wants a given color.
#[derive(Debug, Clone, Copy, Hash, PartialEq, Eq, Structural, PartialOrd, Ord, Default)]
pub enum ColorPreferenceLevel {
    #[default]
    NoPreference,
    Mild,
    Strong,
    Absolute,
}

/// A wanted color, the strength of the wish, and, for an absolute
/// preference caused by imbalance, how large the imbalance is.
#[derive(Debug, Clone, Copy, Hash, PartialEq, Eq, Structural, Default)]
pub struct ColorPreference {
    pub color: Color,
    pub level: ColorPreferenceLevel,
    pub width: u8,
}

/// A colour-code or title-code outside the range of its enumeration.
#[derive(Debug, Clone, Copy, PartialEq, Eq, Structural)]
pub enum CodeError {
    InvalidColorCode,
    InvalidTitleCode,
}

/// Points given for a win, a draw and a loss.
pub type ResultScoreConfig = (u8, u8, u8);

/// The opposite color; `NoColor` stays `NoColor`.
pub open spec fn opposite(c: Color) -> Color {
    match c {
        Color::NoColor => Color::NoColor,
        Color::White => Color::Black,
        Color::Black => Color::White,
    }
}

/// The position of a title in its enumeration.
pub open spec fn title_rank(t: Title) -> u8 {
    match t {
        Title::Untitled => 0,
        Title::WCM => 1,
        Title::WFM => 2,
        Title::CM => 3,
        Title::WIM => 4,
        Title::FM => 5,
        Title::WGM => 6,
        Title::IM => 7,
        Title::GM => 8,
    }
}

/// The position of a color in its enumeration.
pub open spec fn color_rank(c: Color) -> u8 {
    match c {
        Color::NoColor => 0,
        Color::White => 1,
        Color::Black => 2,
    }
}

impl Color {
    /// The opposite color.
    pub fn not(self) -> (r: Color)
        ensures
            r == opposite(self),
    {
        match self {
            Color::NoColor => Color::NoColor,
            Color::White => Color::Black,
            Color::Black => Color::White,
        }
    }

    /// The numeric code of the color.
    pub fn to_code(self) -> (r: u8)
        ensures
            r == color_rank(self),
    {
        match self {
            Color::NoColor => 0,
            Color::White => 1,
            Color::Black => 2,
        }
    }

    /// The color with the given numeric code; codes above 2 are rejected.
    pub fn from_code(code: u8) -> (r: Result<Color, CodeError>)
        ensures
            code <= 2 <==> r is Ok,
            r is Ok ==> color_rank(r->Ok_0) == code,
            r is Err ==> r->Err_0 == CodeError::InvalidColorCode,
    {
        match code {
            0 => Ok(Color::NoColor),
            1 => Ok(Color::White),
            2 => Ok(Color::Black),
            _ => Err(CodeError::InvalidColorCode),
        }
    }
}

/// The text of a title in listings; no title reads `None`.
pub open spec fn title_text(t: Title) -> Seq<char> {
    match t {
        Title::Untitled => seq!['N', 'o', 'n', 'e'],
        Title::WCM => seq!['W', 'C', 'M'],
        Title::WFM => seq!['W', 'F', 'M'],
        Title::CM => seq!['C', 'M'],
        Title::WIM => seq!['W', 'I', 'M'],
        Title::FM => seq!['F', 'M'],
        Title::WGM => seq!['W', 'G', 'M'],
        Title::IM => seq!['I', 'M'],
        Title::GM => seq!['G', 'M'],
    }
}

impl Title {
    /// The text of the title in listings.
    pub fn abbreviation(self) -> (r: &'static str)
        ensures
            r@ == title_text(self),
    {
        proof {
            reveal_strlit("None");
            reveal_strlit("WCM");
            reveal_strlit("WFM");
            reveal_strlit("CM");
            reveal_strlit("WIM");
            reveal_strlit("FM");
            reveal_strlit("WGM");
            reveal_strlit("IM");
            reveal_strlit("GM");
        }
        match self {
            Title::Untitled => "None",
            Title::WCM => "WCM",
            Title::WFM => "WFM",
            Title::CM => "CM",
            Title::WIM => "WIM",
            Title::FM => "FM",
            Title::WGM => "WGM",
            Title::IM => "IM",
            Title::GM => "GM",
        }
    }

    /// The numeric code of the title.
    pub fn to_code(self) -> (r: u8)
        ensures
            r == title_rank(self),
    {
        match self {
            Title::Untitled => 0,
            Title::WCM => 1,
            Title::WFM => 2,
            Title::CM => 3,
            Title::WIM => 4,
            Title::FM => 5,
            Title::WGM => 6,
            Title::IM => 7,
            Title::GM => 8,
        }
    }

    /// The title with the given numeric code; codes above 8 are rejected.
    pub fn from_code(code: u8) -> (r: Result<Title, CodeError>)
        ensures
            code <= 8 <==> r is Ok,
            r is Ok ==> title_rank(r->Ok_0) == code,
            r is Err ==> r->Err_0 == CodeError::InvalidTitleCode,
    {
        match code {
            0 => Ok(Title::Untitled),
            1 => Ok(Title::WCM),
            2 => Ok(Title::WFM),
            3 => Ok(Title::CM),
            4 => Ok(Title::WIM),
            5 => Ok(Title::FM),
            6 => Ok(Title::WGM),
            7 => Ok(Title::IM),
            8 => Ok(Title::GM),
            _ => Err(CodeError::InvalidTitleCode),
        }
    }
}

impl ColorPreference {
    /// A preference with no imbalance width.
    pub fn new(color: Color, level: ColorPreferenceLevel) -> (r: ColorPreference)
        ensures
            r == (ColorPreference { color, level, width: 0 }),
    {
        ColorPreference { color, level, width: 0 }
    }

    /// A preference that also records the size of a color imbalance.
    pub fn new_with_width(color: Color, level: ColorPreferenceLevel, width: u8) -> (r:
        ColorPreference)
        ensures
            r == (ColorPreference { color, level, width }),
    {
        ColorPreference { color, level, width }
    }
}

} // verus!
