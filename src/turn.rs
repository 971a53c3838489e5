use crate::data_types::{Action, ActionModel, Card, CardLocation, Color, GEMS, GOLD};
use crate::game_state::{GameState, IllegalAction};
use crate::player::{MAX_RESERVED, MAX_TOKENS};
use vstd::prelude::*;

verus! {

/// Most tokens of distinct colors one move may take.
pub const MAX_DISTINCT: usize = 3;

/// Bank stock of a color needed to take two tokens of it.
pub const SAME_COLOR_FLOOR: u8 = 4;

/// 1 if one of the colors sits at index `i` of the per-color arrays.
pub open spec fn picks(cs: Seq<Color>, i: int) -> int {
    if exists|k: int| 0 <= k < cs.len() && (#[trigger] cs[k]).idx() == i {
        1
    } else {
        0
    }
}

impl GameState {
    /// The first fault among the colors from position `i` on: gold, an
    /// empty bank stock, or a color that comes again later.
    pub open spec fn color_error(self, cs: Seq<Color>, i: int) -> Option<IllegalAction>
        decreases cs.len() - i,
    {
        if i < 0 || i >= cs.len() {
            None
        } else if cs[i] is Gold {
            Some(IllegalAction::GoldToken)
        } else if self.bank@[cs[i].idx()] == 0 {
            Some(IllegalAction::BankShort)
        } else if cs.subrange(i + 1, cs.len() as int).contains(cs[i]) {
            Some(IllegalAction::RepeatedColor)
        } else {
            self.color_error(cs, i + 1)
        }
    }

    /// Why the current player may not make the move, if they may not.
    pub open spec fn turn_error(self, a: ActionModel) -> Option<IllegalAction> {
        let p = self.current();
        match a {
            ActionModel::TakeDifferent(cs) => if cs.len() > MAX_DISTINCT {
                Some(IllegalAction::TooManyTokens)
            } else if self.color_error(cs, 0) is Some {
                self.color_error(cs, 0)
            } else if p.token_total() + cs.len() > MAX_TOKENS {
                Some(IllegalAction::TokenCap)
            } else {
                None
            },
            ActionModel::TakeSame(c) => if c is Gold {
                Some(IllegalAction::GoldToken)
            } else if self.bank@[c.idx()] < SAME_COLOR_FLOOR {
                Some(IllegalAction::BankShort)
            } else if p.token_total() + 2 > MAX_TOKENS {
                Some(IllegalAction::TokenCap)
            } else {
                None
            },
            ActionModel::Reserve(loc) => if loc is Reserve {
                Some(IllegalAction::AlreadyReserved)
            } else if p.reserved@.len() >= MAX_RESERVED {
                Some(IllegalAction::ReserveFull)
            } else {
                self.take_error(loc)
            },
            ActionModel::Buy(loc) => if self.peek_error(loc) is Some {
                self.peek_error(loc)
            } else if !p.affords(self.card_at(loc)) {
                Some(IllegalAction::CannotAfford)
            } else {
                None
            },
        }
    }

    /// Tokens of color `i` the current player gains by the move (negative
    /// when paying); the bank loses as many.
    pub open spec fn token_gain(self, a: ActionModel, i: int) -> int {
        let p = self.current();
        match a {
            ActionModel::TakeDifferent(cs) => picks(cs, i),
            ActionModel::TakeSame(c) => if c.idx() == i {
                2
            } else {
                0
            },
            ActionModel::Reserve(_) => if i == GOLD && self.bank@[GOLD as int] > 0
                && p.token_total() < MAX_TOKENS {
                1
            } else {
                0
            },
            ActionModel::Buy(loc) => if i < GEMS {
                -p.colored_payment(self.card_at(loc), i)
            } else {
                -p.total_shortfall(self.card_at(loc))
            },
        }
    }

    /// The location a move takes a card from.
    pub open spec fn source(a: ActionModel) -> Option<CardLocation> {
        match a {
            ActionModel::Reserve(loc) => Some(loc),
            ActionModel::Buy(loc) => Some(loc),
            _ => None,
        }
    }

    /// The current player's reserve after the move.
    pub open spec fn reserved_after(self, a: ActionModel) -> Seq<Card> {
        match a {
            ActionModel::Reserve(loc) => self.current().reserved@.push(self.card_at(loc)),
            ActionModel::Buy(loc) => self.reserve_after_take(loc),
            _ => self.current().reserved@,
        }
    }

    /// The current player's owned cards of color `i` after the move.
    pub open spec fn owned_after(self, a: ActionModel, i: int) -> Seq<u8> {
        match a {
            ActionModel::Buy(loc) => if self.card_at(loc).color.idx() == i {
                self.current().owned@[i]@.push(self.card_at(loc).vp)
            } else {
                self.current().owned@[i]@
            },
            _ => self.current().owned@[i]@,
        }
    }

    /// Points of the card the move buys, if it buys one.
    pub open spec fn card_points(self, a: ActionModel) -> int {
        match a {
            ActionModel::Buy(loc) => self.card_at(loc).vp as int,
            _ => 0,
        }
    }

    /// `post` shows the resource effect of the move by the player at seat
    /// `s`: tokens, cards, bank, piles and market.
    pub open spec fn resources_moved(self, post: GameState, a: ActionModel) -> bool {
        let s = self.curr_player_idx as int;
        let q = post.players@[s];
        &&& forall|i: int|
            0 <= i < 6 ==> #[trigger] q.tokens@[i] == self.current().tokens@[i] + self.token_gain(
                a,
                i,
            )
        &&& forall|i: int|
            0 <= i < 6 ==> #[trigger] post.bank@[i] == self.bank@[i] - self.token_gain(a, i)
        &&& forall|i: int| 0 <= i < GEMS ==> #[trigger] q.owned@[i]@ == self.owned_after(a, i)
        &&& q.reserved@ == self.reserved_after(a)
        &&& match GameState::source(a) {
            Some(loc) => self.card_taken(post, loc),
            None => forall|l: int|
                0 <= l < 3 ==> #[trigger] post.pile(l) == self.pile(l) && post.row(l) == self.row(
                    l,
                ),
        }
    }

    /// `post` shows the noble step for the player at seat `s`, whose owned
    /// cards `post` holds: the best noble they qualify for moves from the
    /// pool to them, or nothing changes.
    pub open spec fn noble_awarded(self, post: GameState) -> bool {
        let s = self.curr_player_idx as int;
        let q = post.players@[s];
        if q.qualifies_for_any(self.nobles@) {
            let j = q.best_noble(self.nobles@);
            &&& post.nobles@ == self.nobles@.remove(j)
            &&& q.nobles@ == self.current().nobles@.push(self.nobles@[j])
        } else {
            &&& post.nobles@ == self.nobles@
            &&& q.nobles@ == self.current().nobles@
        }
    }

    /// Points of the noble the player at seat `s` receives in `post`.
    pub open spec fn noble_points(self, post: GameState) -> int {
        let q = post.players@[self.curr_player_idx as int];
        if q.qualifies_for_any(self.nobles@) {
            self.nobles@[q.best_noble(self.nobles@)].vp as int
        } else {
            0
        }
    }

    /// The player's history gains a (round, points) entry exactly when
    /// their points rose.
    pub open spec fn points_recorded(self, post: GameState, a: ActionModel) -> bool {
        let p = self.current();
        let q = post.players@[self.curr_player_idx as int];
        let gained = self.card_points(a) + self.noble_points(post);
        if gained > 0 {
            q.vp_history@ == p.vp_history@.push((self.round, (p.vp_spec() + gained) as u8))
        } else {
            q.vp_history@ == p.vp_history@
        }
    }

    pub open spec fn someone_won(self) -> bool {
        exists|i: int| 0 <= i < self.players@.len() && (#[trigger] self.players@[i]).vp_spec() >= 15
    }

    /// The cursor moves on; at the end of a round the game ends if someone
    /// has reached the winning points, else the next round starts.
    pub open spec fn advanced(self, post: GameState, done: bool) -> bool {
        let next = self.curr_player_idx + 1;
        if next < self.players@.len() {
            &&& post.curr_player_idx == next
            &&& post.round == self.round
            &&& !done
        } else if post.someone_won() {
            &&& post.curr_player_idx == self.players@.len()
            &&& post.round == self.round
            &&& done
        } else {
            &&& post.curr_player_idx == 0
            &&& post.round == self.round + 1
            &&& !done
        }
    }

    /// Only the acting player's ledger changes.
    pub open spec fn others_kept(self, post: GameState) -> bool {
        &&& post.players@.len() == self.players@.len()
        &&& forall|i: int|
            0 <= i < self.players@.len() && i != self.curr_player_idx ==> #[trigger] post.players@[i]
                == self.players@[i]
    }

    /// The whole effect of a legal move.
    pub open spec fn turn_taken(self, post: GameState, a: ActionModel, done: bool) -> bool {
        &&& self.resources_moved(post, a)
        &&& self.noble_awarded(post)
        &&& self.points_recorded(post, a)
        &&& self.others_kept(post)
        &&& self.advanced(post, done)
    }
}

impl GameState {
    /// Removes the card at a location and returns it. A market slot is
    /// refilled from its pile when the pile has cards; a reserve location
    /// is taken from the current player's reserve.
    pub(crate) fn take_card(&mut self, loc: &CardLocation) -> (r: Result<Card, IllegalAction>)
        requires
            *loc is Reserve ==> !old(self).finished(),
        ensures
            old(self).take_error(*loc) matches Some(e) ==> r == Err::<Card, IllegalAction>(e)
                && *final(self) == *old(self),
            old(self).take_error(*loc) is None ==> {
                &&& r == Ok::<Card, IllegalAction>(old(self).card_at(*loc))
                &&& old(self).card_taken(*final(self), *loc)
                &&& final(self).current().reserved@ == old(self).reserve_after_take(*loc)
                &&& final(self).current().tokens == old(self).current().tokens
                &&& final(self).current().owned == old(self).current().owned
                &&& final(self).current().nobles@ == old(self).current().nobles@
                &&& final(self).current().vp_history@ == old(self).current().vp_history@
                &&& old(self).others_kept(*final(self))
            },
            *loc !is Reserve ==> final(self).players == old(self).players,
            final(self).bank == old(self).bank,
            final(self).nobles == old(self).nobles,
            final(self).curr_player_idx == old(self).curr_player_idx,
            final(self).round == old(self).round,
    {
        match loc {
            CardLocation::Pile(level) => {
                if *level < 1 || *level > 3 {
                    return Err(IllegalAction::InvalidPileLevel);
                }
                let l = *level - 1;
                if self.piles[l].len() == 0 {
                    return Err(IllegalAction::NoCardsLeft);
                }
                match self.piles[l].pop() {
                    Some(c) => Ok(c),
                    None => Err(IllegalAction::NoCardsLeft),
                }
            },
            CardLocation::Market(level, idx) => {
                if *level < 1 || *level > 3 {
                    return Err(IllegalAction::InvalidMarketLevel);
                }
                let l = *level - 1;
                if *idx >= self.market[l].len() {
                    return Err(IllegalAction::InvalidMarketIndex);
                }
                if self.piles[l].len() == 0 {
                    Ok(self.market[l].remove(*idx))
                } else {
                    match self.piles[l].pop() {
                        Some(top) => {
                            self.market[l].push(top);
                            let c = self.market[l].swap_remove(*idx);
                            proof {
                                assert(self.row(l as int) =~= old(self).row_after(*loc, l as int));
                            }
                            Ok(c)
                        },
                        None => Err(IllegalAction::NoCardsLeft),
                    }
                }
            },
            CardLocation::Reserve(idx) => {
                let seat = self.curr_player_idx;
                if *idx >= self.players[seat].reserved.len() {
                    return Err(IllegalAction::InvalidReserveIndex);
                }
                match self.players[seat].pop_reserved(*idx) {
                    Some(c) => Ok(c),
                    None => Err(IllegalAction::InvalidReserveIndex),
                }
            },
        }
    }
}

impl GameState {
    pub(crate) proof fn lemma_colors_clean(self, cs: Seq<Color>, i: int)
        requires
            0 <= i <= cs.len(),
            self.color_error(cs, i) is None,
        ensures
            forall|k: int|
                i <= k < cs.len() ==> {
                    &&& (#[trigger] cs[k]) !is Gold
                    &&& self.bank@[cs[k].idx()] > 0
                    &&& forall|m: int| k < m < cs.len() ==> cs[m] != cs[k]
                },
        decreases cs.len() - i,
    {
        if i < cs.len() {
            self.lemma_colors_clean(cs, i + 1);
            assert forall|m: int| i < m < cs.len() implies cs[m] != cs[i] by {
                if cs[m] == cs[i] {
                    assert(cs.subrange(i + 1, cs.len() as int)[m - i - 1] == cs[i]);
                }
            }
        }
    }

    fn check_colors(&self, colors: &Vec<Color>) -> (r: Result<(), IllegalAction>)
        ensures
            self.color_error(colors@, 0) matches Some(e) ==> r == Err::<(), IllegalAction>(e),
            self.color_error(colors@, 0) is None ==> r is Ok,
    {
        let mut i: usize = 0;
        while i < colors.len()
            invariant
                0 <= i <= colors@.len(),
                self.color_error(colors@, 0) == self.color_error(colors@, i as int),
            decreases colors@.len() - i,
        {
            let c = colors[i];
            if c == Color::Gold {
                return Err(IllegalAction::GoldToken);
            }
            if self.bank[c.index()] == 0 {
                return Err(IllegalAction::BankShort);
            }
            let mut j: usize = i + 1;
            while j < colors.len()
                invariant
                    i < j <= colors@.len(),
                    c == colors@[i as int],
                    c !is Gold,
                    self.bank@[c.idx()] != 0,
                    self.color_error(colors@, 0) == self.color_error(colors@, i as int),
                    forall|k: int| i < k < j ==> colors@[k] != c,
                decreases colors@.len() - j,
            {
                if colors[j] == c {
                    assert(colors@.subrange(i + 1, colors@.len() as int)[j - i - 1] == c);
                    return Err(IllegalAction::RepeatedColor);
                }
                j += 1;
            }
            let ghost sub = colors@.subrange(i + 1, colors@.len() as int);
            assert forall|w: int| 0 <= w < sub.len() implies sub[w] != c by {
                assert(sub[w] == colors@[i + 1 + w]);
            }
            i += 1;
        }
        Ok(())
    }

    /// Why taking the card at a location would fail, without taking it.
    fn check_take(&self, loc: &CardLocation) -> (r: Result<(), IllegalAction>)
        requires
            !self.finished(),
        ensures
            self.take_error(*loc) matches Some(e) ==> r == Err::<(), IllegalAction>(e),
            self.take_error(*loc) is None ==> r is Ok,
    {
        match loc {
            CardLocation::Pile(level) => {
                if *level < 1 || *level > 3 {
                    return Err(IllegalAction::InvalidPileLevel);
                }
                if self.piles[*level - 1].len() == 0 {
                    return Err(IllegalAction::NoCardsLeft);
                }
                Ok(())
            },
            _ => match self.peek_card(loc) {
                Ok(_) => Ok(()),
                Err(e) => Err(e),
            },
        }
    }

    /// Checks a move of the current player against the rules.
    pub fn check_action(&self, action: &Action) -> (r: Result<(), IllegalAction>)
        requires
            self.wf(),
            !self.finished(),
        ensures
            self.turn_error(action@) matches Some(e) ==> r == Err::<(), IllegalAction>(e),
            self.turn_error(action@) is None ==> r is Ok,
    {
        let p = self.curr_player();
        proof {
            assert(crate::game_state::player_ok(self.players@[self.curr_player_idx as int], self.round));
        }
        match action {
            Action::TakeDifferentColorTokens(colors) => {
                if colors.len() > MAX_DISTINCT {
                    return Err(IllegalAction::TooManyTokens);
                }
                match self.check_colors(colors) {
                    Err(e) => Err(e),
                    Ok(()) => {
                        if p.num_tokens() as usize + colors.len() > MAX_TOKENS as usize {
                            Err(IllegalAction::TokenCap)
                        } else {
                            Ok(())
                        }
                    },
                }
            },
            Action::TakeSameColorTokens(color) => {
                if *color == Color::Gold {
                    return Err(IllegalAction::GoldToken);
                }
                if self.bank[color.index()] < SAME_COLOR_FLOOR {
                    return Err(IllegalAction::BankShort);
                }
                if p.num_tokens() + 2 > MAX_TOKENS {
                    return Err(IllegalAction::TokenCap);
                }
                Ok(())
            },
            Action::ReserveCard(loc) => {
                if let CardLocation::Reserve(_) = loc {
                    return Err(IllegalAction::AlreadyReserved);
                }
                if !p.can_reserve() {
                    return Err(IllegalAction::ReserveFull);
                }
                self.check_take(loc)
            },
            Action::BuyCard(loc) => match self.peek_card(loc) {
                Err(e) => Err(e),
                Ok(card) => {
                    if !p.can_buy(card) {
                        Err(IllegalAction::CannotAfford)
                    } else {
                        Ok(())
                    }
                },
            },
        }
    }
}

} // verus!
