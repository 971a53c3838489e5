use vstd::prelude::*;

verus! {

/// A token color. The five gem colors produce cards and appear in costs;
/// gold is the wildcard token that can stand in for any gem color.
#[derive(Debug, Clone, Copy, PartialEq, Eq, Hash, Structural)]
pub enum Color {
    White,
    Blue,
    Green,
    Red,
    Black,
    Gold,
}

/// The index of gold in a six-wide per-color aggregate.
pub const GOLD: usize = 5;

/// The number of gem colors.
pub const GEMS: usize = 5;

impl Color {
    /// Position of the color in per-color arrays: gems 0 to 4, gold 5.
    pub open spec fn idx(self) -> int {
        match self {
            Color::White => 0,
            Color::Blue => 1,
            Color::Green => 2,
            Color::Red => 3,
            Color::Black => 4,
            Color::Gold => 5,
        }
    }

    pub open spec fn is_gem(self) -> bool {
        self !is Gold
    }

    pub fn index(&self) -> (r: usize)
        ensures
            r as int == self.idx(),
            r <= GOLD,
    {
        match self {
            Color::White => 0,
            Color::Blue => 1,
            Color::Green => 2,
            Color::Red => 3,
            Color::Black => 4,
            Color::Gold => 5,
        }
    }

    /// The color at position `i` of the per-color arrays (gold past the
    /// gems).
    pub open spec fn of(i: int) -> Color {
        if i == 0 {
            Color::White
        } else if i == 1 {
            Color::Blue
        } else if i == 2 {
            Color::Green
        } else if i == 3 {
            Color::Red
        } else if i == 4 {
            Color::Black
        } else {
            Color::Gold
        }
    }

    pub fn from_index(i: usize) -> (r: Color)
        requires
            i <= GOLD,
        ensures
            r == Color::of(i as int),
            r.idx() == i,
    {
        match i {
            0 => Color::White,
            1 => Color::Blue,
            2 => Color::Green,
            3 => Color::Red,
            4 => Color::Black,
            _ => Color::Gold,
        }
    }

    pub fn try_from(value: usize) -> (r: Result<Color, ()>)
        ensures
            value <= GOLD ==> r == Ok::<Color, ()>(Color::of(value as int)),
            value > GOLD ==> r is Err,
            r matches Ok(c) ==> c.idx() == value,
    {
        match value {
            0 => Ok(Color::White),
            1 => Ok(Color::Blue),
            2 => Ok(Color::Green),
            3 => Ok(Color::Red),
            4 => Ok(Color::Black),
            5 => Ok(Color::Gold),
            _ => Err(()),
        }
    }
}

/// A development card: its level (1 to 3), the gem color it produces,
/// its victory points and its cost in white, blue, green, red, black.
#[derive(Debug, Clone, Copy, PartialEq)]
pub struct Card {
    pub level: usize,
    pub color: Color,
    pub vp: u8,
    pub cost: [u8; 5],
}

/// A noble: victory points, and the number of owned cards of each gem
/// color that earns it.
#[derive(Debug, Clone, Copy, PartialEq)]
pub struct Noble {
    pub vp: u8,
    pub cost: [u8; 5],
}

/// Where a card lies: a face-down pile by level, a market slot by level
/// and index, or a slot in the current player's reserve.
#[derive(Debug, Clone, Copy, PartialEq, Eq, Structural)]
pub enum CardLocation {
    Pile(usize),
    Market(usize, usize),
    Reserve(usize),
}

/// A move of the current player.
#[derive(Debug, Clone, PartialEq)]
pub enum Action {
    TakeDifferentColorTokens(Vec<Color>),
    TakeSameColorTokens(Color),
    ReserveCard(CardLocation),
    BuyCard(CardLocation),
}

/// The mathematical form of an action.
pub enum ActionModel {
    TakeDifferent(Seq<Color>),
    TakeSame(Color),
    Reserve(CardLocation),
    Buy(CardLocation),
}

impl View for Action {
    type V = ActionModel;

    open spec fn view(&self) -> ActionModel {
        match self {
            Action::TakeDifferentColorTokens(cs) => ActionModel::TakeDifferent(cs@),
            Action::TakeSameColorTokens(c) => ActionModel::TakeSame(*c),
            Action::ReserveCard(l) => ActionModel::Reserve(*l),
            Action::BuyCard(l) => ActionModel::Buy(*l),
        }
    }
}

impl Card {
    /// A card that can stand in the game: a gem color and a level of 1 to 3.
    pub open spec fn wf(self) -> bool {
        self.color.is_gem() && 1 <= self.level <= 3
    }
}

} // verus!
