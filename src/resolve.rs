use crate::data_types::{Action, ActionModel, CardLocation, Color, GEMS, GOLD};
use crate::game_state::{
    cards_ok, cards_of, lemma_card_vp_drop_last, lemma_card_vp_nonneg, lemma_card_vp_push,
    lemma_card_vp_remove, lemma_card_vp_update, lemma_noble_le_total, lemma_noble_vp_nonneg, lemma_noble_vp_remove,
    lemma_player_sum_bound, lemma_player_sum_update, noble_vp_total, player_ok, stake, tokens_held,
    GameState, IllegalAction, WINNING_VP,
};
use crate::player::{Player, MAX_RESERVED, MAX_TOKENS};
use crate::turn::picks;
use vstd::prelude::*;

verus! {

/// A ledger within the caps: at most three reserved cards, all of them
/// proper cards, and at most ten tokens.
pub open spec fn ledger_ok(p: Player) -> bool {
    &&& p.reserved@.len() <= MAX_RESERVED
    &&& p.token_total() <= MAX_TOKENS
    &&& forall|k: int| 0 <= k < p.reserved@.len() ==> (#[trigger] p.reserved@[k]).wf()
}

impl GameState {
    /// `post` is the table once the resource effect of a legal move is
    /// applied, before the noble step and the cursor move.
    pub open spec fn effect_done(self, post: GameState, a: ActionModel) -> bool {
        &&& self.resources_moved(post, a)
        &&& self.others_kept(post)
        &&& post.nobles@ == self.nobles@
        &&& post.curr_player_idx == self.curr_player_idx
        &&& post.round == self.round
        &&& post.current().nobles@ == self.current().nobles@
        &&& post.current().vp_history@ == self.current().vp_history@
        &&& post.tokens_conserved()
        &&& post.card_count() == self.card_count()
        &&& post.vp_budget() + self.card_points(a) == self.vp_budget()
        &&& post.tables_ok()
        &&& ledger_ok(post.current())
    }

    proof fn lemma_current_ok(self)
        requires
            self.wf(),
            !self.finished(),
        ensures
            player_ok(self.current(), self.round),
            ledger_ok(self.current()),
            forall|c: int|
                0 <= c < 6 ==> self.bank@[c] + #[trigger] self.current().token(c) <= 7,
    {
        let s = self.curr_player_idx as int;
        assert(player_ok(self.players@[s], self.round));
        assert forall|c: int| 0 <= c < 6 implies self.bank@[c] + #[trigger] self.current().token(c)
            <= 7 by {
            let f = |p: Player| p.token(c);
            assert forall|k: int| 0 <= k < self.players@.len() implies f(
                #[trigger] self.players@[k],
            ) >= 0 by {}
            lemma_player_sum_bound(self.players@, s, f);
            assert(self.bank@[c] + tokens_held(self.players@, c) == crate::game_state::initial_bank(
                self.num_players(),
            )[c]);
        }
    }

    /// What taking a card from the table does to the table's totals.
    proof fn lemma_table_take(self, post: GameState, loc: CardLocation)
        requires
            self.wf(),
            !self.finished(),
            self.take_error(loc) is None,
            loc !is Reserve,
            self.card_taken(post, loc),
        ensures
            post.table_count() == self.table_count() - 1,
            post.table_vp() == self.table_vp() - self.card_at(loc).vp,
            post.tables_ok(),
            self.card_at(loc).wf(),
    {
        assert(post.pile(0) == self.pile_after(loc, 0));
        assert(post.pile(1) == self.pile_after(loc, 1));
        assert(post.pile(2) == self.pile_after(loc, 2));
        assert(post.row(0) == self.row_after(loc, 0));
        assert(post.row(1) == self.row_after(loc, 1));
        assert(post.row(2) == self.row_after(loc, 2));
        match loc {
            CardLocation::Pile(m) => {
                let l = m - 1;
                assert(cards_ok(self.pile(l)));
                assert(self.pile(l).last() == self.pile(l)[self.pile(l).len() - 1]);
                lemma_card_vp_drop_last(self.pile(l));
            },
            CardLocation::Market(m, i) => {
                let l = m - 1;
                assert(cards_ok(self.row(l)));
                assert(cards_ok(self.pile(l)));
                assert(self.row(l)[i as int].wf());
                if self.pile(l).len() > 0 {
                    assert(self.pile(l).last() == self.pile(l)[self.pile(l).len() - 1]);
                    lemma_card_vp_drop_last(self.pile(l));
                    lemma_card_vp_update(self.row(l), i as int, self.pile(l).last());
                    assert(cards_ok(post.row(l)));
                } else {
                    lemma_card_vp_remove(self.row(l), i as int);
                    assert forall|k: int| 0 <= k < post.row(l).len() implies (
                    #[trigger] post.row(l)[k]).wf() by {
                        if k < i {
                            assert(post.row(l)[k] == self.row(l)[k]);
                        } else {
                            assert(post.row(l)[k] == self.row(l)[k + 1]);
                        }
                    }
                }
            },
            CardLocation::Reserve(_) => {},
        }
        assert forall|l: int| 0 <= l < 3 implies cards_ok(#[trigger] post.pile(l)) by {
            assert(cards_ok(self.pile(l)));
            assert forall|k: int| 0 <= k < post.pile(l).len() implies (
            #[trigger] post.pile(l)[k]).wf() by {
                assert(post.pile(l)[k] == self.pile(l)[k]);
            }
        }
        assert forall|l: int| 0 <= l < 3 implies cards_ok(#[trigger] post.row(l)) by {
            assert(cards_ok(self.row(l)));
            assert(cards_ok(self.pile(l)));
        }
        assert forall|l: int| 0 <= l < 3 implies #[trigger] post.row(l).len() <= 4 by {
            assert(self.row(l).len() <= 4);
        }
    }
}

impl GameState {
    /// Totals over the players when only the current player's ledger is
    /// replaced.
    proof fn lemma_seat_update(self, post: GameState)
        requires
            !self.finished(),
            post.players@ == self.players@.update(self.curr_player_idx as int, post.current()),
        ensures
            forall|c: int|
                #![trigger tokens_held(post.players@, c)]
                tokens_held(post.players@, c) == tokens_held(self.players@, c) - self.current().token(
                    c,
                ) + post.current().token(c),
            crate::game_state::player_sum(post.players@, |p: Player| cards_of(p))
                == crate::game_state::player_sum(self.players@, |p: Player| cards_of(p)) - cards_of(
                self.current(),
            ) + cards_of(post.current()),
            crate::game_state::player_sum(post.players@, |p: Player| stake(p))
                == crate::game_state::player_sum(self.players@, |p: Player| stake(p)) - stake(
                self.current(),
            ) + stake(post.current()),
            self.others_kept(post),
    {
        let s = self.curr_player_idx as int;
        assert forall|c: int|
            #![trigger tokens_held(post.players@, c)]
            tokens_held(post.players@, c) == tokens_held(self.players@, c) - self.current().token(c)
                + post.current().token(c) by {
            lemma_player_sum_update(self.players@, s, post.current(), |p: Player| p.token(c));
        }
        lemma_player_sum_update(self.players@, s, post.current(), |p: Player| cards_of(p));
        lemma_player_sum_update(self.players@, s, post.current(), |p: Player| stake(p));
    }

    fn take_same(&mut self, color: Color)
        requires
            old(self).wf(),
            !old(self).finished(),
            old(self).turn_error(ActionModel::TakeSame(color)) is None,
        ensures
            old(self).effect_done(*final(self), ActionModel::TakeSame(color)),
    {
        proof {
            self.lemma_current_ok();
        }
        let ghost pre = *self;
        let seat = self.curr_player_idx;
        let c = color.index();
        self.bank[c] = self.bank[c] - 2;
        self.players[seat].tokens[c] = self.players[seat].tokens[c] + 2;
        proof {
            assert(self.players@ =~= pre.players@.update(seat as int, self.current()));
            pre.lemma_seat_update(*self);
            assert(self.current().token_total() == pre.current().token_total() + 2);
            assert forall|i: int| 0 <= i < 6 implies #[trigger] self.bank@[i] + tokens_held(
                self.players@,
                i,
            ) == crate::game_state::initial_bank(self.num_players())[i] by {
                assert(tokens_held(self.players@, i) == tokens_held(pre.players@, i)
                    - pre.current().token(i) + self.current().token(i));
            }
        }
    }
}

impl GameState {
    fn reserve_card(&mut self, loc: &CardLocation)
        requires
            old(self).wf(),
            !old(self).finished(),
            old(self).turn_error(ActionModel::Reserve(*loc)) is None,
        ensures
            old(self).effect_done(*final(self), ActionModel::Reserve(*loc)),
    {
        proof {
            self.lemma_current_ok();
        }
        let ghost pre = *self;
        let seat = self.curr_player_idx;
        let card = match self.take_card(loc) {
            Ok(c) => c,
            Err(_) => {
                proof {
                    assert(false);
                }
                return;
            },
        };
        let ghost mid = *self;
        proof {
            pre.lemma_table_take(mid, *loc);
            assert(mid.current() == pre.current());
        }
        let mut gold = self.bank[GOLD];
        self.players[seat].reserve(card, &mut gold);
        self.bank[GOLD] = gold;
        proof {
            assert(self.players@ =~= pre.players@.update(seat as int, self.current()));
            pre.lemma_seat_update(*self);
            lemma_card_vp_push(pre.current().reserved@, card);
            assert(self.table_count() == mid.table_count());
            assert(self.table_vp() == mid.table_vp());
            assert(self.pile(0) == mid.pile(0));
            assert(self.tables_ok());
            assert forall|i: int| 0 <= i < 6 implies #[trigger] self.bank@[i] + tokens_held(
                self.players@,
                i,
            ) == crate::game_state::initial_bank(self.num_players())[i] by {
                assert(tokens_held(self.players@, i) == tokens_held(pre.players@, i)
                    - pre.current().token(i) + self.current().token(i));
            }
            let q = self.current();
            assert forall|k: int| 0 <= k < q.reserved@.len() implies (#[trigger] q.reserved@[k]).wf() by {
                if k < pre.current().reserved@.len() {
                    assert(q.reserved@[k] == pre.current().reserved@[k]);
                }
            }
            assert forall|i: int| 0 <= i < 6 implies #[trigger] q.tokens@[i]
                == pre.current().tokens@[i] + pre.token_gain(ActionModel::Reserve(*loc), i) by {}
        }
    }
}

impl GameState {
    /// Pays for the card at `loc` and adds it to the current player's
    /// owned cards; returns its points.
    #[verifier::rlimit(80)]
    fn buy_card(&mut self, loc: &CardLocation) -> (r: u8)
        requires
            old(self).wf(),
            !old(self).finished(),
            old(self).turn_error(ActionModel::Buy(*loc)) is None,
        ensures
            old(self).effect_done(*final(self), ActionModel::Buy(*loc)),
            r == old(self).card_points(ActionModel::Buy(*loc)),
    {
        proof {
            self.lemma_current_ok();
        }
        let ghost pre = *self;
        let seat = self.curr_player_idx;
        let card = match self.take_card(loc) {
            Ok(c) => c,
            Err(_) => {
                proof {
                    assert(false);
                }
                return 0;
            },
        };
        let ghost mid = *self;
        proof {
            if *loc is Reserve {
                let i = loc->Reserve_0 as int;
                assert(pre.current().reserved@[i].wf());
                lemma_card_vp_remove(pre.current().reserved@, i);
                assert(mid.table_count() == pre.table_count());
                assert(mid.table_vp() == pre.table_vp());
                assert(mid.tables_ok());
                let mq = mid.current();
                assert forall|k: int| 0 <= k < mq.reserved@.len() implies (
                #[trigger] mq.reserved@[k]).wf() by {
                    if k < i {
                        assert(mq.reserved@[k] == pre.current().reserved@[k]);
                    } else {
                        assert(mq.reserved@[k] == pre.current().reserved@[k + 1]);
                    }
                }
            } else {
                pre.lemma_table_take(mid, *loc);
                assert(mid.current() == pre.current());
            }
        }
        self.players[seat].buy(card, &mut self.bank);
        proof {
            let p = pre.current();
            let q = self.current();
            assert(self.players@ =~= pre.players@.update(seat as int, q));
            pre.lemma_seat_update(*self);
            assert(self.table_count() == mid.table_count());
            assert(self.table_vp() == mid.table_vp());
            assert(self.tables_ok());
            let ci = card.color.idx();
            assert(q.owned_total() == p.owned_total() + 1) by {
                assert(q.owned@[ci]@.len() == p.owned@[ci]@.len() + 1);
                assert forall|i: int| 0 <= i < 5 && i != ci implies #[trigger] q.owned@[i]@.len()
                    == p.owned@[i]@.len() by {}
            }
            assert(q.token_total() <= p.token_total());
            assert forall|i: int| 0 <= i < 6 implies #[trigger] self.bank@[i] + tokens_held(
                self.players@,
                i,
            ) == crate::game_state::initial_bank(self.num_players())[i] by {
                assert(tokens_held(self.players@, i) == tokens_held(pre.players@, i) - p.token(i)
                    + q.token(i));
            }
            assert forall|i: int| 0 <= i < 6 implies #[trigger] q.tokens@[i] == p.tokens@[i]
                + pre.token_gain(ActionModel::Buy(*loc), i) by {}
            assert forall|i: int| 0 <= i < 6 implies #[trigger] self.bank@[i] == pre.bank@[i]
                - pre.token_gain(ActionModel::Buy(*loc), i) by {}
            assert forall|i: int| 0 <= i < GEMS implies #[trigger] q.owned@[i]@ == pre.owned_after(
                ActionModel::Buy(*loc),
                i,
            ) by {}
        }
        card.vp
    }
}

proof fn lemma_picks_push(cs: Seq<Color>, x: Color, i: int)
    ensures
        picks(cs.push(x), i) == if x.idx() == i {
            1
        } else {
            picks(cs, i)
        },
{
    let t = cs.push(x);
    if x.idx() == i {
        assert(t[cs.len() as int].idx() == i);
    } else {
        if picks(cs, i) == 1 {
            let k = choose|k: int| 0 <= k < cs.len() && (#[trigger] cs[k]).idx() == i;
            assert(t[k].idx() == i);
        }
        if picks(t, i) == 1 {
            let k = choose|k: int| 0 <= k < t.len() && (#[trigger] t[k]).idx() == i;
            assert(cs[k].idx() == i);
        }
    }
}

proof fn lemma_picks_absent(cs: Seq<Color>, x: Color)
    requires
        forall|k: int| 0 <= k < cs.len() ==> cs[k] != x,
    ensures
        picks(cs, x.idx()) == 0,
{
    if picks(cs, x.idx()) == 1 {
        let k = choose|k: int| 0 <= k < cs.len() && (#[trigger] cs[k]).idx() == x.idx();
        assert(cs[k] != x);
    }
}

impl GameState {
    #[verifier::rlimit(40)]
    fn take_different(&mut self, colors: &Vec<Color>)
        requires
            old(self).wf(),
            !old(self).finished(),
            old(self).turn_error(ActionModel::TakeDifferent(colors@)) is None,
        ensures
            old(self).effect_done(*final(self), ActionModel::TakeDifferent(colors@)),
    {
        proof {
            self.lemma_current_ok();
            self.lemma_colors_clean(colors@, 0);
        }
        let ghost pre = *self;
        let ghost p = pre.current();
        let seat = self.curr_player_idx;
        let mut i: usize = 0;
        while i < colors.len()
            invariant
                0 <= i <= colors@.len(),
                seat == pre.curr_player_idx,
                !pre.finished(),
                forall|k: int|
                    0 <= k < colors@.len() ==> {
                        &&& (#[trigger] colors@[k]) !is Gold
                        &&& pre.bank@[colors@[k].idx()] > 0
                        &&& forall|m: int| k < m < colors@.len() ==> colors@[m] != colors@[k]
                    },
                forall|c: int| 0 <= c < 6 ==> pre.bank@[c] + #[trigger] p.token(c) <= 7,
                self.players@.len() == pre.players@.len(),
                forall|j: int|
                    0 <= j < pre.players@.len() && j != seat ==> #[trigger] self.players@[j]
                        == pre.players@[j],
                self.curr_player_idx == seat,
                self.round == pre.round,
                self.piles == pre.piles,
                self.market == pre.market,
                self.nobles == pre.nobles,
                self.players@[seat as int].owned == p.owned,
                self.players@[seat as int].reserved == p.reserved,
                self.players@[seat as int].nobles == p.nobles,
                self.players@[seat as int].vp_history == p.vp_history,
                forall|c: int|
                    0 <= c < 6 ==> #[trigger] self.players@[seat as int].tokens@[c] == p.tokens@[c]
                        + picks(colors@.take(i as int), c),
                forall|c: int|
                    0 <= c < 6 ==> #[trigger] self.bank@[c] == pre.bank@[c] - picks(
                        colors@.take(i as int),
                        c,
                    ),
                self.players@[seat as int].token_total() == p.token_total() + i,
            decreases colors@.len() - i,
        {
            let x = colors[i];
            let xi = x.index();
            proof {
                assert(colors@.take(i + 1) =~= colors@.take(i as int).push(x));
                assert forall|k: int| 0 <= k < i implies colors@.take(i as int)[k] != x by {
                    assert(colors@[i as int] != colors@[k]);
                }
                lemma_picks_absent(colors@.take(i as int), x);
                assert forall|c: int| 0 <= c < 6 implies picks(colors@.take(i + 1), c) == if xi == c {
                    1
                } else {
                    picks(colors@.take(i as int), c)
                } by {
                    lemma_picks_push(colors@.take(i as int), x, c);
                }
                assert(p.token(xi as int) <= 7);
            }
            self.bank[xi] = self.bank[xi] - 1;
            self.players[seat].tokens[xi] = self.players[seat].tokens[xi] + 1;
            i += 1;
        }
        proof {
            assert(colors@.take(colors@.len() as int) =~= colors@);
            let q = self.current();
            assert(self.players@ =~= pre.players@.update(seat as int, q));
            pre.lemma_seat_update(*self);
            assert(self.table_count() == pre.table_count());
            assert(self.table_vp() == pre.table_vp());
            assert forall|c: int| 0 <= c < 6 implies #[trigger] self.bank@[c] + tokens_held(
                self.players@,
                c,
            ) == crate::game_state::initial_bank(self.num_players())[c] by {
                assert(tokens_held(self.players@, c) == tokens_held(pre.players@, c) - p.token(c)
                    + q.token(c));
            }
        }
    }
}

impl GameState {
    /// Whether some player has reached the winning points.
    fn any_winner(&self) -> (r: bool)
        requires
            forall|i: int| 0 <= i < self.players@.len() ==> (#[trigger] self.players@[i]).vp_history@.len() > 0,
        ensures
            r == self.someone_won(),
    {
        let mut i: usize = 0;
        while i < self.players.len()
            invariant
                0 <= i <= self.players@.len(),
                forall|k: int| 0 <= k < self.players@.len() ==> (#[trigger] self.players@[k]).vp_history@.len() > 0,
                forall|k: int| 0 <= k < i ==> (#[trigger] self.players@[k]).vp_spec() < WINNING_VP,
            decreases self.players@.len() - i,
        {
            if self.players[i].vp() >= WINNING_VP {
                assert(self.players@[i as int].vp_spec() >= 15);
                return true;
            }
            i += 1;
        }
        false
    }

    /// Bounds used to show that the points after a move fit in a byte.
    proof fn lemma_points_fit(self, m: Player, noble_vp: int)
        requires
            !self.finished(),
            m == self.current(),
            noble_vp <= noble_vp_total(self.nobles@),
            forall|i: int| 0 <= i < self.players@.len() ==> (#[trigger] self.players@[i]).vp_history@.len() > 0,
        ensures
            m.vp_spec() + noble_vp <= self.vp_budget(),
    {
        let f = |p: Player| stake(p);
        assert forall|k: int| 0 <= k < self.players@.len() implies f(#[trigger] self.players@[k]) >= 0 by {
            lemma_card_vp_nonneg(self.players@[k].reserved@);
        }
        lemma_player_sum_bound(self.players@, self.curr_player_idx as int, f);
        lemma_card_vp_nonneg(m.reserved@);
        lemma_card_vp_nonneg(self.pile(0));
        lemma_card_vp_nonneg(self.pile(1));
        lemma_card_vp_nonneg(self.pile(2));
        lemma_card_vp_nonneg(self.row(0));
        lemma_card_vp_nonneg(self.row(1));
        lemma_card_vp_nonneg(self.row(2));
    }

    /// Applies one move of the current player: the resource effect, then
    /// the noble step, then the points record, then the cursor move.
    /// Returns whether the game is now over. An illegal move changes
    /// nothing.
    #[verifier::rlimit(80)]
    pub fn take_turn(&mut self, action: &Action) -> (r: Result<bool, IllegalAction>)
        requires
            old(self).wf(),
            !old(self).finished(),
            old(self).round < u16::MAX,
        ensures
            old(self).turn_error(action@) matches Some(e) ==> r == Err::<bool, IllegalAction>(e)
                && *final(self) == *old(self),
            old(self).turn_error(action@) is None ==> r is Ok && old(self).turn_taken(
                *final(self),
                action@,
                r->Ok_0,
            ),
            r is Ok ==> final(self).wf(),
            r matches Ok(done) ==> done == final(self).finished(),
    {
        match self.check_action(action) {
            Err(e) => {
                return Err(e);
            },
            Ok(()) => {},
        }
        proof {
            self.lemma_current_ok();
        }
        let ghost pre = *self;
        let seat = self.curr_player_idx;
        let old_vp = self.players[seat].vp();
        let card_vp = self.apply_effect(action);
        let ghost mid = *self;
        proof {
            assert forall|i: int| 0 <= i < mid.players@.len() implies (#[trigger] mid.players@[i]).vp_history@.len() > 0 by {
                if i != seat {
                    assert(mid.players@[i] == pre.players@[i]);
                    assert(player_ok(pre.players@[i], pre.round));
                }
            }
        }
        let noble_vp = self.players[seat].acquire_best_noble(&mut self.nobles);
        proof {
            let m = mid.current();
            if m.qualifies_for_any(mid.nobles@) {
                let j = m.best_noble(mid.nobles@);
                lemma_noble_le_total(mid.nobles@, j);
            }
            lemma_noble_vp_nonneg(mid.nobles@);
            mid.lemma_points_fit(m, noble_vp as int);
        }
        let new_vp = old_vp + card_vp + noble_vp;
        if new_vp > old_vp {
            self.players[seat].vp_history.push((self.round, new_vp));
        }
        proof {
            pre.lemma_turn_bookkeeping(mid, *self, action@, card_vp as int, noble_vp as int);
        }
        let ghost resolved = *self;
        self.curr_player_idx = seat + 1;
        if self.curr_player_idx == self.players.len() {
            if self.any_winner() {
                proof {
                    resolved.lemma_wf_advance(*self);
                }
                return Ok(true);
            }
            self.round = self.round + 1;
            self.curr_player_idx = 0;
        }
        proof {
            resolved.lemma_wf_advance(*self);
        }
        Ok(false)
    }
}

impl GameState {
    /// The points earned by the acting player grow by those of the card
    /// bought and the noble received.
    proof fn lemma_earned_step(self, mid: GameState, post: GameState, a: ActionModel, noble_vp: int)
        requires
            self.wf(),
            !self.finished(),
            self.turn_error(a) is None,
            self.effect_done(mid, a),
            post.curr_player_idx == mid.curr_player_idx,
            post.players@.len() == mid.players@.len(),
            post.current().owned == mid.current().owned,
            (post.current().nobles@ == mid.current().nobles@ && noble_vp == 0) || exists|
                n: crate::data_types::Noble,
            | n.vp == noble_vp && post.current().nobles@ == mid.current().nobles@.push(n),
        ensures
            crate::game_state::earned(post.current()) == crate::game_state::earned(self.current())
                + self.card_points(a) + noble_vp,
    {
        reveal(crate::game_state::earned);
        let p = self.current();
        let q = post.current();
        let m = mid.current();
        assert(m == mid.players@[self.curr_player_idx as int]);
        assert forall|i: int| 0 <= i < 5 implies #[trigger] q.owned@[i]@ == self.owned_after(a, i) by {}
        if a is Buy {
            let loc = a->Buy_0;
            let c = self.card_at(loc);
            assert(player_ok(self.players@[self.curr_player_idx as int], self.round));
            if loc is Market {
                assert(crate::game_state::cards_ok(self.row(loc->Market_0 - 1)));
            }
            assert(c.wf());
            crate::game_state::lemma_color_vp_push(p.owned@[c.color.idx()]@, c.vp);
        }
        if !(q.nobles@ == m.nobles@ && noble_vp == 0) {
            let n = choose|n: crate::data_types::Noble|
                n.vp == noble_vp && q.nobles@ == m.nobles@.push(n);
            crate::game_state::lemma_noble_vp_push(m.nobles@, n);
        }
    }
}

impl GameState {
    /// From the table after the resource effect (`mid`) to the table after
    /// the noble step and the points record (`post`).
    #[verifier::rlimit(60)]
    proof fn lemma_turn_bookkeeping(
        self,
        mid: GameState,
        post: GameState,
        a: ActionModel,
        card_vp: int,
        noble_vp: int,
    )
        requires
            self.wf(),
            !self.finished(),
            self.turn_error(a) is None,
            self.effect_done(mid, a),
            card_vp == self.card_points(a),
            post.players@.len() == mid.players@.len(),
            forall|i: int|
                0 <= i < mid.players@.len() && i != self.curr_player_idx ==> #[trigger] post.players@[i]
                    == mid.players@[i],
            post.bank == mid.bank,
            post.piles == mid.piles,
            post.market == mid.market,
            post.curr_player_idx == mid.curr_player_idx,
            post.round == mid.round,
            post.current().tokens == mid.current().tokens,
            post.current().owned == mid.current().owned,
            post.current().reserved@ == mid.current().reserved@,
            mid.current().qualifies_for_any(mid.nobles@) ==> {
                let j = mid.current().best_noble(mid.nobles@);
                &&& mid.current().is_best_noble(mid.nobles@, j)
                &&& noble_vp == mid.nobles@[j].vp
                &&& post.nobles@ == mid.nobles@.remove(j)
                &&& post.current().nobles@ == mid.current().nobles@.push(mid.nobles@[j])
            },
            !mid.current().qualifies_for_any(mid.nobles@) ==> {
                &&& noble_vp == 0
                &&& post.nobles@ == mid.nobles@
                &&& post.current().nobles@ == mid.current().nobles@
            },
            card_vp + noble_vp > 0 ==> post.current().vp_history@ == mid.current().vp_history@.push(
                (self.round, (self.current().vp_spec() + card_vp + noble_vp) as u8),
            ),
            card_vp + noble_vp == 0 ==> post.current().vp_history@ == mid.current().vp_history@,
            self.current().vp_spec() + card_vp + noble_vp <= u8::MAX,
            card_vp >= 0,
            noble_vp >= 0,
        ensures
            post.wf(),
            self.resources_moved(post, a),
            self.noble_awarded(post),
            self.points_recorded(post, a),
            self.others_kept(post),
    {
        let s = self.curr_player_idx as int;
        let p = self.current();
        let m = mid.current();
        let q = post.current();
        if m.qualifies_for_any(mid.nobles@) {
            let j = m.best_noble(mid.nobles@);
            assert(mid.nobles@[j].vp == noble_vp);
        }
        self.lemma_earned_step(mid, post, a, noble_vp);
        assert(post.players@ =~= mid.players@.update(s, q));
        mid.lemma_seat_update(post);
        assert(post.table_count() == mid.table_count());
        assert(post.table_vp() == mid.table_vp());
        assert forall|c: int| 0 <= c < 6 implies #[trigger] post.bank@[c] + tokens_held(
            post.players@,
            c,
        ) == crate::game_state::initial_bank(post.num_players())[c] by {
            assert(tokens_held(post.players@, c) == tokens_held(mid.players@, c) - m.token(c)
                + q.token(c));
            assert(mid.bank@[c] + tokens_held(mid.players@, c) == crate::game_state::initial_bank(
                mid.num_players(),
            )[c]);
        }
        // The noble step reads only the owned cards, which `q` shares with `m`.
        assert forall|n: crate::data_types::Noble| q.qualifies(n) == m.qualifies(n) by {}
        if m.qualifies_for_any(mid.nobles@) {
            let j = m.best_noble(mid.nobles@);
            assert(q.is_best_noble(mid.nobles@, j));
            q.lemma_best_noble_unique(mid.nobles@, j);
            lemma_noble_vp_remove(mid.nobles@, j);
        } else {
            assert(!q.qualifies_for_any(mid.nobles@));
        }
        assert(self.noble_points(post) == noble_vp);
        assert(m.vp_history@ == p.vp_history@);
        assert(p.history_ok());
        assert(player_ok(p, self.round));
        if card_vp + noble_vp > 0 {
            assert(q.vp_history@.last() == (self.round, (p.vp_spec() + card_vp + noble_vp) as u8));
            assert forall|k: int| 0 < k < q.vp_history@.len() implies {
                &&& (#[trigger] q.vp_history@[k]).1 > q.vp_history@[k - 1].1
                &&& q.vp_history@[k].0 >= q.vp_history@[k - 1].0
            } by {
                if k < q.vp_history@.len() - 1 {
                    assert(q.vp_history@[k] == p.vp_history@[k]);
                    assert(q.vp_history@[k - 1] == p.vp_history@[k - 1]);
                } else {
                    assert(q.vp_history@[k - 1] == p.vp_history@.last());
                }
            }
        }
        assert(stake(q) == stake(m) + card_vp + noble_vp);
        assert(forall|k: int| 0 <= k < q.reserved@.len() ==> (#[trigger] q.reserved@[k]).wf());
        assert forall|i: int| 0 <= i < post.num_players() implies player_ok(
            #[trigger] post.players@[i],
            post.round,
        ) by {
            if i != s {
                assert(post.players@[i] == self.players@[i]);
            }
        }
    }

    /// Moving the cursor or starting the next round keeps the invariant.
    proof fn lemma_wf_advance(self, post: GameState)
        requires
            self.wf(),
            post.curr_player_idx <= post.players@.len(),
            post.round >= self.round,
            post.players == self.players,
            post.piles == self.piles,
            post.market == self.market,
            post.nobles == self.nobles,
            post.bank == self.bank,
        ensures
            post.wf(),
    {
        assert forall|i: int| 0 <= i < post.num_players() implies player_ok(
            #[trigger] post.players@[i],
            post.round,
        ) by {
            assert(player_ok(self.players@[i], self.round));
        }
    }
}

impl GameState {
    /// The resource effect of a legal move; returns the points of the card
    /// it buys, if any.
    fn apply_effect(&mut self, action: &Action) -> (r: u8)
        requires
            old(self).wf(),
            !old(self).finished(),
            old(self).turn_error(action@) is None,
        ensures
            old(self).effect_done(*final(self), action@),
            r == old(self).card_points(action@),
    {
        match action {
            Action::TakeDifferentColorTokens(colors) => {
                self.take_different(colors);
                0
            },
            Action::TakeSameColorTokens(c) => {
                self.take_same(*c);
                0
            },
            Action::ReserveCard(loc) => {
                self.reserve_card(loc);
                0
            },
            Action::BuyCard(loc) => self.buy_card(loc),
        }
    }
}

} // verus!
