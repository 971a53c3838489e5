use crate::data_types::{Card, CardLocation, Noble};
use crate::player::{Player, MAX_RESERVED, MAX_TOKENS};
use crate::tally::{
    lemma_sum_bound, lemma_sum_nonneg, lemma_sum_push, lemma_sum_remove, lemma_sum_update, sum_of,
};
use vstd::prelude::*;

verus! {

/// Cards of a market row while its pile lasts.
pub const ROW_SIZE: usize = 4;

/// Points that end the game at the close of the round.
pub const WINNING_VP: u8 = 15;

/// Most cards the table may hold in all, so that per-color tallies fit in a
/// byte.
pub const MAX_CARDS: usize = 240;

/// Why a move was refused. Every variant is an illegal action.
#[derive(Debug, Clone, Copy, PartialEq, Eq, Structural)]
pub enum IllegalAction {
    TooManyTokens,
    GoldToken,
    BankShort,
    RepeatedColor,
    TokenCap,
    AlreadyReserved,
    ReserveFull,
    CannotAfford,
    PilePeek,
    InvalidPileLevel,
    NoCardsLeft,
    InvalidMarketLevel,
    InvalidMarketIndex,
    InvalidReserveIndex,
}

impl IllegalAction {
    /// A human-readable reason.
    pub fn reason(&self) -> (r: &'static str)
        ensures
            *self == IllegalAction::TooManyTokens ==> r@ == "Cannot take more than 3 tokens"@,
            *self == IllegalAction::GoldToken ==> r@ == "Cannot take a gold token"@,
            *self == IllegalAction::BankShort ==> r@ == "Not enough tokens in bank"@,
            *self == IllegalAction::RepeatedColor ==> r@ == "Cannot take the same color twice"@,
            *self == IllegalAction::TokenCap ==> r@ == "Cannot take more than 10 tokens"@,
            *self == IllegalAction::AlreadyReserved ==> r@ == "Card is already reserved"@,
            *self == IllegalAction::ReserveFull ==> r@ == "At most 3 cards can be reserved"@,
            *self == IllegalAction::CannotAfford ==> r@ == "Cannot afford card"@,
            *self == IllegalAction::PilePeek ==> r@ == "No peeking at the pile"@,
            *self == IllegalAction::InvalidPileLevel ==> r@ == "Invalid pile level"@,
            *self == IllegalAction::NoCardsLeft ==> r@ == "No cards left"@,
            *self == IllegalAction::InvalidMarketLevel ==> r@ == "Invalid market level"@,
            *self == IllegalAction::InvalidMarketIndex ==> r@ == "Invalid market index"@,
            *self == IllegalAction::InvalidReserveIndex ==> r@ == "Invalid reserve index"@,
    {
        match self {
            IllegalAction::TooManyTokens => "Cannot take more than 3 tokens",
            IllegalAction::GoldToken => "Cannot take a gold token",
            IllegalAction::BankShort => "Not enough tokens in bank",
            IllegalAction::RepeatedColor => "Cannot take the same color twice",
            IllegalAction::TokenCap => "Cannot take more than 10 tokens",
            IllegalAction::AlreadyReserved => "Card is already reserved",
            IllegalAction::ReserveFull => "At most 3 cards can be reserved",
            IllegalAction::CannotAfford => "Cannot afford card",
            IllegalAction::PilePeek => "No peeking at the pile",
            IllegalAction::InvalidPileLevel => "Invalid pile level",
            IllegalAction::NoCardsLeft => "No cards left",
            IllegalAction::InvalidMarketLevel => "Invalid market level",
            IllegalAction::InvalidMarketIndex => "Invalid market index",
            IllegalAction::InvalidReserveIndex => "Invalid reserve index",
        }
    }
}

/// The game table.
pub struct GameState {
    /// Face-down piles, one per level; the top card is the last one. Only
    /// the rules read them: `peek_card` refuses pile locations.
    pub piles: [Vec<Card>; 3],
    /// Face-up market rows, one per level.
    pub market: [Vec<Card>; 3],
    /// Nobles still to be awarded.
    pub nobles: Vec<Noble>,
    /// Token bank: white, blue, green, red, black, gold.
    pub bank: [u8; 6],
    /// Players in seat order.
    pub players: Vec<Player>,
    /// Seat of the player to move; equal to the number of players once the
    /// game is over.
    pub curr_player_idx: usize,
    /// Current round, from 1.
    pub round: u16,
}

/// The bank a game starts with, by number of players.
pub open spec fn initial_bank(n: int) -> Seq<u8> {
    if n == 2 {
        seq![4u8, 4, 4, 4, 4, 5]
    } else if n == 3 {
        seq![5u8, 5, 5, 5, 5, 5]
    } else {
        seq![7u8, 7, 7, 7, 7, 5]
    }
}

/// Sum of `f` over the players.
pub open spec fn player_sum(ps: Seq<Player>, f: spec_fn(Player) -> int) -> int {
    sum_of(ps.map_values(f))
}

/// Tokens of color `c` that the players hold.
pub open spec fn tokens_held(ps: Seq<Player>, c: int) -> int {
    player_sum(ps, |p: Player| p.token(c))
}

pub open spec fn card_vp_total(cards: Seq<Card>) -> int {
    sum_of(cards.map_values(|c: Card| c.vp as int))
}

pub open spec fn noble_vp_total(nobles: Seq<Noble>) -> int {
    sum_of(nobles.map_values(|n: Noble| n.vp as int))
}

/// Cards in a player's hands: reserved and owned.
pub open spec fn cards_of(p: Player) -> int {
    p.reserved@.len() + p.owned_total()
}

/// Points a player has, plus those of the cards they have reserved.
pub open spec fn stake(p: Player) -> int {
    p.vp_spec() + card_vp_total(p.reserved@)
}

/// Points of the cards owned in one color.
pub open spec fn color_vp(cards: Seq<u8>) -> int {
    sum_of(cards.map_values(|v: u8| v as int))
}

/// Points a player has earned: owned cards plus acquired nobles.
#[verifier::opaque]
pub open spec fn earned(p: Player) -> int {
    color_vp(p.owned@[0]@) + color_vp(p.owned@[1]@) + color_vp(p.owned@[2]@) + color_vp(
        p.owned@[3]@,
    ) + color_vp(p.owned@[4]@) + noble_vp_total(p.nobles@)
}

/// A player's ledger is consistent with a game in round `round`; their
/// points are those of their owned cards and nobles.
pub open spec fn player_ok(p: Player, round: u16) -> bool {
    &&& p.history_ok()
    &&& p.vp_spec() == earned(p)
    &&& p.vp_history@.last().0 <= round
    &&& p.reserved@.len() <= MAX_RESERVED
    &&& p.token_total() <= MAX_TOKENS
    &&& forall|k: int| 0 <= k < p.reserved@.len() ==> (#[trigger] p.reserved@[k]).wf()
}

pub open spec fn cards_ok(cards: Seq<Card>) -> bool {
    forall|k: int| 0 <= k < cards.len() ==> (#[trigger] cards[k]).wf()
}

pub open spec fn level_ok(level: usize) -> bool {
    1 <= level <= 3
}

pub proof fn lemma_player_sum_update(ps: Seq<Player>, i: int, q: Player, f: spec_fn(Player) -> int)
    requires
        0 <= i < ps.len(),
    ensures
        player_sum(ps.update(i, q), f) == player_sum(ps, f) - f(ps[i]) + f(q),
{
    assert(ps.update(i, q).map_values(f) =~= ps.map_values(f).update(i, f(q)));
    lemma_sum_update(ps.map_values(f), i, f(q));
}

pub proof fn lemma_player_sum_bound(ps: Seq<Player>, i: int, f: spec_fn(Player) -> int)
    requires
        0 <= i < ps.len(),
        forall|k: int| 0 <= k < ps.len() ==> f(#[trigger] ps[k]) >= 0,
    ensures
        f(ps[i]) <= player_sum(ps, f),
{
    let s = ps.map_values(f);
    assert forall|k: int| 0 <= k < s.len() implies s[k] >= 0 by {
        assert(f(ps[k]) >= 0);
    }
    lemma_sum_bound(s, i);
}

pub proof fn lemma_color_vp_push(cards: Seq<u8>, v: u8)
    ensures
        color_vp(cards.push(v)) == color_vp(cards) + v,
{
    let f = |v: u8| v as int;
    assert(cards.push(v).map_values(f) =~= cards.map_values(f).push(v as int));
    lemma_sum_push(cards.map_values(f), v as int);
}

pub proof fn lemma_noble_vp_push(nobles: Seq<Noble>, n: Noble)
    ensures
        noble_vp_total(nobles.push(n)) == noble_vp_total(nobles) + n.vp,
{
    let f = |n: Noble| n.vp as int;
    assert(nobles.push(n).map_values(f) =~= nobles.map_values(f).push(n.vp as int));
    lemma_sum_push(nobles.map_values(f), n.vp as int);
}

pub proof fn lemma_card_vp_push(cards: Seq<Card>, c: Card)
    ensures
        card_vp_total(cards.push(c)) == card_vp_total(cards) + c.vp,
{
    let f = |c: Card| c.vp as int;
    assert(cards.push(c).map_values(f) =~= cards.map_values(f).push(c.vp as int));
    lemma_sum_push(cards.map_values(f), c.vp as int);
}

pub proof fn lemma_card_vp_remove(cards: Seq<Card>, i: int)
    requires
        0 <= i < cards.len(),
    ensures
        card_vp_total(cards.remove(i)) == card_vp_total(cards) - cards[i].vp,
{
    let f = |c: Card| c.vp as int;
    assert(cards.remove(i).map_values(f) =~= cards.map_values(f).remove(i));
    lemma_sum_remove(cards.map_values(f), i);
}

pub proof fn lemma_card_vp_update(cards: Seq<Card>, i: int, c: Card)
    requires
        0 <= i < cards.len(),
    ensures
        card_vp_total(cards.update(i, c)) == card_vp_total(cards) - cards[i].vp + c.vp,
{
    let f = |c: Card| c.vp as int;
    assert(cards.update(i, c).map_values(f) =~= cards.map_values(f).update(i, c.vp as int));
    lemma_sum_update(cards.map_values(f), i, c.vp as int);
}

pub proof fn lemma_card_vp_drop_last(cards: Seq<Card>)
    requires
        cards.len() > 0,
    ensures
        card_vp_total(cards.drop_last()) == card_vp_total(cards) - cards.last().vp,
{
    lemma_card_vp_remove(cards, cards.len() - 1);
    assert(cards.remove(cards.len() - 1) =~= cards.drop_last());
}

pub proof fn lemma_noble_vp_remove(nobles: Seq<Noble>, i: int)
    requires
        0 <= i < nobles.len(),
    ensures
        noble_vp_total(nobles.remove(i)) == noble_vp_total(nobles) - nobles[i].vp,
{
    let f = |n: Noble| n.vp as int;
    assert(nobles.remove(i).map_values(f) =~= nobles.map_values(f).remove(i));
    lemma_sum_remove(nobles.map_values(f), i);
}

pub proof fn lemma_noble_le_total(nobles: Seq<Noble>, j: int)
    requires
        0 <= j < nobles.len(),
    ensures
        nobles[j].vp <= noble_vp_total(nobles),
{
    let s = nobles.map_values(|n: Noble| n.vp as int);
    lemma_sum_bound(s, j);
}

pub proof fn lemma_noble_vp_nonneg(nobles: Seq<Noble>)
    ensures
        noble_vp_total(nobles) >= 0,
{
    lemma_sum_nonneg(nobles.map_values(|n: Noble| n.vp as int));
}

pub proof fn lemma_card_vp_nonneg(cards: Seq<Card>)
    ensures
        card_vp_total(cards) >= 0,
{
    let s = cards.map_values(|c: Card| c.vp as int);
    lemma_sum_nonneg(s);
}

impl GameState {
    pub open spec fn pile(self, l: int) -> Seq<Card> {
        self.piles@[l]@
    }

    pub open spec fn row(self, l: int) -> Seq<Card> {
        self.market@[l]@
    }

    pub open spec fn num_players(self) -> int {
        self.players@.len() as int
    }

    pub open spec fn current(self) -> Player {
        self.players@[self.curr_player_idx as int]
    }

    pub open spec fn finished(self) -> bool {
        self.curr_player_idx >= self.players@.len()
    }

    /// Cards in the piles and the market.
    pub open spec fn table_count(self) -> int {
        (self.pile(0).len() + self.pile(1).len() + self.pile(2).len() + self.row(0).len()
            + self.row(1).len() + self.row(2).len()) as int
    }

    /// Points of the cards in the piles and the market.
    pub open spec fn table_vp(self) -> int {
        card_vp_total(self.pile(0)) + card_vp_total(self.pile(1)) + card_vp_total(self.pile(2))
            + card_vp_total(self.row(0)) + card_vp_total(self.row(1)) + card_vp_total(self.row(2))
    }

    /// All cards on the table and in the players' hands.
    pub open spec fn card_count(self) -> int {
        self.table_count() + player_sum(self.players@, |p: Player| cards_of(p))
    }

    /// Points not yet scored: cards on the table and the noble pool.
    pub open spec fn unclaimed_vp(self) -> int {
        self.table_vp() + noble_vp_total(self.nobles@)
    }

    /// Points scored plus points that can still be scored.
    pub open spec fn vp_budget(self) -> int {
        self.unclaimed_vp() + player_sum(self.players@, |p: Player| stake(p))
    }

    /// Every color's tokens add up to the bank the game started with.
    pub open spec fn tokens_conserved(self) -> bool {
        forall|c: int|
            0 <= c < 6 ==> self.bank@[c] + tokens_held(self.players@, c) == #[trigger] initial_bank(
                self.num_players(),
            )[c]
    }

    pub open spec fn tables_ok(self) -> bool {
        &&& forall|l: int| 0 <= l < 3 ==> #[trigger] self.row(l).len() <= ROW_SIZE
        &&& forall|l: int| 0 <= l < 3 ==> cards_ok(#[trigger] self.row(l))
        &&& forall|l: int| 0 <= l < 3 ==> cards_ok(#[trigger] self.pile(l))
    }

    /// The invariant of every reachable table.
    pub open spec fn wf(self) -> bool {
        &&& 2 <= self.num_players() <= 9
        &&& self.curr_player_idx <= self.num_players()
        &&& self.round >= 1
        &&& forall|i: int|
            0 <= i < self.num_players() ==> player_ok(#[trigger] self.players@[i], self.round)
        &&& self.tables_ok()
        &&& self.tokens_conserved()
        &&& self.card_count() <= MAX_CARDS
        &&& self.vp_budget() <= u8::MAX
    }

    /// The card a location names, where it names one.
    pub open spec fn card_at(self, loc: CardLocation) -> Card {
        match loc {
            CardLocation::Pile(l) => self.pile(l - 1).last(),
            CardLocation::Market(l, i) => self.row(l - 1)[i as int],
            CardLocation::Reserve(i) => self.current().reserved@[i as int],
        }
    }

    /// Why looking at a location fails, if it does.
    pub open spec fn peek_error(self, loc: CardLocation) -> Option<IllegalAction> {
        match loc {
            CardLocation::Pile(_) => Some(IllegalAction::PilePeek),
            CardLocation::Market(l, i) => if !level_ok(l) {
                Some(IllegalAction::InvalidMarketLevel)
            } else if i >= self.row(l - 1).len() {
                Some(IllegalAction::InvalidMarketIndex)
            } else {
                None
            },
            CardLocation::Reserve(i) => if i >= self.current().reserved@.len() {
                Some(IllegalAction::InvalidReserveIndex)
            } else {
                None
            },
        }
    }

    /// Why taking the card at a location fails, if it does.
    pub open spec fn take_error(self, loc: CardLocation) -> Option<IllegalAction> {
        match loc {
            CardLocation::Pile(l) => if !level_ok(l) {
                Some(IllegalAction::InvalidPileLevel)
            } else if self.pile(l - 1).len() == 0 {
                Some(IllegalAction::NoCardsLeft)
            } else {
                None
            },
            _ => self.peek_error(loc),
        }
    }

    /// Pile `l` (from 0) once the card at `loc` is taken.
    pub open spec fn pile_after(self, loc: CardLocation, l: int) -> Seq<Card> {
        match loc {
            CardLocation::Pile(m) => if m - 1 == l {
                self.pile(l).drop_last()
            } else {
                self.pile(l)
            },
            CardLocation::Market(m, _) => if m - 1 == l && self.pile(l).len() > 0 {
                self.pile(l).drop_last()
            } else {
                self.pile(l)
            },
            CardLocation::Reserve(_) => self.pile(l),
        }
    }

    /// Market row `l` (from 0) once the card at `loc` is taken: the slot is
    /// refilled from the pile, or the row shrinks when the pile is empty.
    pub open spec fn row_after(self, loc: CardLocation, l: int) -> Seq<Card> {
        match loc {
            CardLocation::Market(m, i) => if m - 1 != l {
                self.row(l)
            } else if self.pile(l).len() > 0 {
                self.row(l).update(i as int, self.pile(l).last())
            } else {
                self.row(l).remove(i as int)
            },
            _ => self.row(l),
        }
    }

    /// The current player's reserve once the card at `loc` is taken.
    pub open spec fn reserve_after_take(self, loc: CardLocation) -> Seq<Card> {
        match loc {
            CardLocation::Reserve(i) => self.current().reserved@.remove(i as int),
            _ => self.current().reserved@,
        }
    }

    /// Taking the card at `loc` left `post` as the rules say.
    pub open spec fn card_taken(self, post: GameState, loc: CardLocation) -> bool {
        &&& forall|l: int| 0 <= l < 3 ==> #[trigger] post.pile(l) == self.pile_after(loc, l)
        &&& forall|l: int| 0 <= l < 3 ==> #[trigger] post.row(l) == self.row_after(loc, l)
    }
}

impl GameState {
    pub fn is_finished(&self) -> (r: bool)
        ensures
            r == self.finished(),
    {
        self.curr_player_idx >= self.players.len()
    }

    pub fn round(&self) -> (r: u16)
        ensures
            r == self.round,
    {
        self.round
    }

    pub(crate) fn curr_player(&self) -> (r: &Player)
        requires
            !self.finished(),
        ensures
            *r == self.current(),
    {
        &self.players[self.curr_player_idx]
    }

    /// The card at a market or reserve location. Piles are drawn blind and
    /// cannot be looked at.
    pub fn peek_card(&self, loc: &CardLocation) -> (r: Result<&Card, IllegalAction>)
        requires
            *loc is Reserve ==> !self.finished(),
        ensures
            self.peek_error(*loc) is None ==> r == Ok::<&Card, IllegalAction>(&self.card_at(*loc)),
            self.peek_error(*loc) matches Some(e) ==> r == Err::<&Card, IllegalAction>(e),
    {
        match loc {
            CardLocation::Pile(_) => Err(IllegalAction::PilePeek),
            CardLocation::Market(level, idx) => {
                if *level < 1 || *level > 3 {
                    return Err(IllegalAction::InvalidMarketLevel);
                }
                let row = &self.market[*level - 1];
                if *idx >= row.len() {
                    return Err(IllegalAction::InvalidMarketIndex);
                }
                Ok(&row[*idx])
            },
            CardLocation::Reserve(idx) => match self.curr_player().peek_reserved(*idx) {
                Some(c) => Ok(c),
                None => Err(IllegalAction::InvalidReserveIndex),
            },
        }
    }
}

} // verus!
