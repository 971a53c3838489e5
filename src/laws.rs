use crate::data_types::{ActionModel, CardLocation, Color, GEMS};
use crate::game_state::{initial_bank, player_ok, tokens_held, GameState};
use crate::moves::{gather, market_loc, one_if};
use vstd::prelude::*;

verus! {

impl GameState {
    pub open spec fn legal(self, a: ActionModel) -> bool {
        self.turn_error(a) is None
    }

    pub open spec fn all_legal(self, s: Seq<ActionModel>) -> bool {
        forall|k: int| 0 <= k < s.len() ==> self.legal(#[trigger] s[k])
    }
}

proof fn lemma_concat_legal(gs: GameState, a: Seq<ActionModel>, b: Seq<ActionModel>)
    requires
        gs.all_legal(a),
        gs.all_legal(b),
    ensures
        gs.all_legal(a + b),
{
    assert forall|k: int| 0 <= k < (a + b).len() implies gs.legal(#[trigger] (a + b)[k]) by {
        if k < a.len() {
            assert((a + b)[k] == a[k]);
        } else {
            assert((a + b)[k] == b[k - a.len()]);
        }
    }
}

proof fn lemma_gather_legal(gs: GameState, lo: int, hi: int, f: spec_fn(int) -> Seq<ActionModel>)
    requires
        forall|x: int| lo <= x < hi ==> gs.all_legal(#[trigger] f(x)),
    ensures
        gs.all_legal(gather(lo, hi, f)),
    decreases hi - lo,
{
    if hi > lo {
        lemma_gather_legal(gs, lo, hi - 1, f);
        assert(gs.all_legal(f(hi - 1)));
        lemma_concat_legal(gs, gather(lo, hi - 1, f), f(hi - 1));
    }
}

proof fn lemma_one_if_legal(gs: GameState, b: bool, a: ActionModel)
    requires
        b ==> gs.legal(a),
    ensures
        gs.all_legal(one_if(b, a)),
{
}

impl GameState {
    proof fn lemma_buyable_prefix(self, n: int)
        requires
            !self.finished(),
            0 <= n <= self.current().reserved@.len(),
            self.current().reserved@.len() <= 3,
        ensures
            forall|k: int|
                0 <= k < self.current().buyable_prefix(n).len() ==> {
                    let i = #[trigger] self.current().buyable_prefix(n)[k];
                    &&& i < n
                    &&& self.current().affords(self.current().reserved@[i as int])
                },
        decreases n,
    {
        if n > 0 {
            self.lemma_buyable_prefix(n - 1);
            let p = self.current();
            if p.affords(p.reserved@[n - 1]) {
                assert forall|k: int| 0 <= k < p.buyable_prefix(n).len() implies {
                    let i = #[trigger] p.buyable_prefix(n)[k];
                    &&& i < n
                    &&& p.affords(p.reserved@[i as int])
                } by {
                    if k < p.buyable_prefix(n - 1).len() {
                        assert(p.buyable_prefix(n)[k] == p.buyable_prefix(n - 1)[k]);
                    } else {
                        assert(p.buyable_prefix(n)[k] == (n - 1) as usize);
                    }
                }
            } else {
                assert(p.buyable_prefix(n) == p.buyable_prefix(n - 1));
            }
        }
    }

    /// A list of distinct gem colors with stock in the bank passes the
    /// color checks.
    proof fn lemma_clean_colors(self, cs: Seq<Color>)
        requires
            cs.len() <= 3,
            forall|k: int| 0 <= k < cs.len() ==> (#[trigger] cs[k]).idx() < GEMS,
            forall|k: int| 0 <= k < cs.len() ==> self.bank@[(#[trigger] cs[k]).idx()] > 0,
            forall|k: int, m: int| 0 <= k < m < cs.len() ==> cs[k] != cs[m],
        ensures
            self.color_error(cs, 0) is None,
    {
        assert forall|i: int| 0 <= i < cs.len() implies !cs.subrange(i + 1, cs.len() as int).contains(
            cs[i],
        ) by {
            let sub = cs.subrange(i + 1, cs.len() as int);
            assert forall|w: int| 0 <= w < sub.len() implies sub[w] != cs[i] by {
                assert(sub[w] == cs[i + 1 + w]);
            }
        }
        assert(self.color_error(cs, 3) is None);
        if cs.len() >= 3 {
            assert(cs[2] !is Gold);
        }
        assert(self.color_error(cs, 2) is None);
        if cs.len() >= 2 {
            assert(cs[1] !is Gold);
        }
        assert(self.color_error(cs, 1) is None);
        if cs.len() >= 1 {
            assert(cs[0] !is Gold);
        }
    }

    proof fn lemma_market_buys_legal(self)
        requires
            self.wf(),
            !self.finished(),
        ensures
            self.all_legal(self.buy_market_moves()),
    {
        let p = self.current();
        assert(player_ok(self.players@[self.curr_player_idx as int], self.round));
        // buying from the market
        assert forall|l: int| 0 <= l < 3 implies self.all_legal(#[trigger] self.buy_row(l)) by {
            assert forall|i: int| 0 <= i < self.row(l).len() implies self.all_legal(
                #[trigger] self.buy_slot(l, i),
            ) by {
                lemma_one_if_legal(
                    self,
                    p.affords(self.row(l)[i]),
                    ActionModel::Buy(market_loc(l, i)),
                );
            }
            lemma_gather_legal(self, 0, self.row(l).len() as int, |i: int| self.buy_slot(l, i));
        }
        lemma_gather_legal(self, 0, 3, |l: int| self.buy_row(l));
    }

    proof fn lemma_reserved_buys_legal(self)
        requires
            self.wf(),
            !self.finished(),
        ensures
            self.all_legal(self.buy_reserved_moves()),
    {
        let p = self.current();
        assert(player_ok(self.players@[self.curr_player_idx as int], self.round));
        // buying from the reserve
        self.lemma_buyable_prefix(p.reserved@.len() as int);
        assert(self.all_legal(self.buy_reserved_moves()));
    }

    proof fn lemma_reserves_legal(self)
        requires
            self.wf(),
            !self.finished(),
        ensures
            self.all_legal(self.reserve_moves()),
    {
        let p = self.current();
        assert(player_ok(self.players@[self.curr_player_idx as int], self.round));
        // reserving
        if p.reserved@.len() < 3 {
            assert forall|l: int| 0 <= l < 3 implies self.all_legal(#[trigger] self.reserve_row(l)) by {
                let f = |i: int| seq![ActionModel::Reserve(market_loc(l, i))];
                assert forall|i: int| 0 <= i < self.row(l).len() implies self.all_legal(
                    #[trigger] f(i),
                ) by {}
                lemma_gather_legal(self, 0, self.row(l).len() as int, f);
                lemma_one_if_legal(
                    self,
                    self.pile(l).len() > 0,
                    ActionModel::Reserve(CardLocation::Pile((l + 1) as usize)),
                );
                lemma_concat_legal(
                    self,
                    gather(0, self.row(l).len() as int, f),
                    one_if(
                        self.pile(l).len() > 0,
                        ActionModel::Reserve(CardLocation::Pile((l + 1) as usize)),
                    ),
                );
            }
            lemma_gather_legal(self, 0, 3, |l: int| self.reserve_row(l));
        }
    }

    proof fn lemma_same_legal(self)
        requires
            self.wf(),
            !self.finished(),
        ensures
            self.all_legal(self.same_moves()),
    {
        let p = self.current();
        assert(player_ok(self.players@[self.curr_player_idx as int], self.round));
        // two tokens of one color
        if p.token_total() + 2 <= 10 {
            let f = |i: int|
                one_if(
                    self.bank@[i] >= crate::turn::SAME_COLOR_FLOOR,
                    ActionModel::TakeSame(Color::of(i)),
                );
            assert forall|i: int| 0 <= i < 5 implies self.all_legal(#[trigger] f(i)) by {}
            lemma_gather_legal(self, 0, 5, f);
        }
    }

    proof fn lemma_three_legal(self)
        requires
            self.wf(),
            !self.finished(),
        ensures
            self.all_legal(self.three_moves()),
    {
        let p = self.current();
        assert(player_ok(self.players@[self.curr_player_idx as int], self.round));
        // three colors
        if p.token_total() + 3 <= 10 {
            let f = |i: int|
                if self.stock(i) {
                    self.triple_j(i)
                } else {
                    seq![]
                };
            assert forall|i: int| 0 <= i < 3 implies self.all_legal(#[trigger] f(i)) by {
                if self.stock(i) {
                    let g = |j: int|
                        if self.stock(j) {
                            self.triple_k(i, j)
                        } else {
                            seq![]
                        };
                    assert forall|j: int| i + 1 <= j < 4 implies self.all_legal(#[trigger] g(j)) by {
                        if self.stock(j) {
                            let h = |k: int|
                                one_if(
                                    self.stock(k),
                                    ActionModel::TakeDifferent(
                                        seq![Color::of(i), Color::of(j), Color::of(k)],
                                    ),
                                );
                            assert forall|k: int| j + 1 <= k < 5 implies self.all_legal(
                                #[trigger] h(k),
                            ) by {
                                if self.stock(k) {
                                    self.lemma_clean_colors(
                                        seq![Color::of(i), Color::of(j), Color::of(k)],
                                    );
                                }
                            }
                            lemma_gather_legal(self, j + 1, 5, h);
                        }
                    }
                    lemma_gather_legal(self, i + 1, 4, g);
                }
            }
            lemma_gather_legal(self, 0, 3, f);
        }
    }

    proof fn lemma_two_legal(self)
        requires
            self.wf(),
            !self.finished(),
        ensures
            self.all_legal(self.two_moves()),
    {
        let p = self.current();
        assert(player_ok(self.players@[self.curr_player_idx as int], self.round));
        // two colors
        if p.token_total() + 2 <= 10 {
            let f = |i: int|
                if self.stock(i) {
                    self.pair_j(i)
                } else {
                    seq![]
                };
            assert forall|i: int| 0 <= i < 4 implies self.all_legal(#[trigger] f(i)) by {
                if self.stock(i) {
                    let g = |j: int|
                        one_if(
                            self.stock(j),
                            ActionModel::TakeDifferent(seq![Color::of(i), Color::of(j)]),
                        );
                    assert forall|j: int| i + 1 <= j < 5 implies self.all_legal(#[trigger] g(j)) by {
                        if self.stock(j) {
                            self.lemma_clean_colors(seq![Color::of(i), Color::of(j)]);
                        }
                    }
                    lemma_gather_legal(self, i + 1, 5, g);
                }
            }
            lemma_gather_legal(self, 0, 4, f);
        }
    }

    proof fn lemma_one_legal(self)
        requires
            self.wf(),
            !self.finished(),
        ensures
            self.all_legal(self.one_moves()),
    {
        let p = self.current();
        assert(player_ok(self.players@[self.curr_player_idx as int], self.round));
        // one color
        if p.token_total() + 1 <= 10 {
            let f = |i: int| one_if(self.stock(i), ActionModel::TakeDifferent(seq![Color::of(i)]));
            assert forall|i: int| 0 <= i < 5 implies self.all_legal(#[trigger] f(i)) by {
                if self.stock(i) {
                    self.lemma_clean_colors(seq![Color::of(i)]);
                }
            }
            lemma_gather_legal(self, 0, 5, f);
        }
    }

    /// Every move that `valid_actions` lists is legal: `take_turn` applies
    /// it without an illegal-action error.
    pub proof fn lemma_valid_actions_legal(self)
        requires
            self.wf(),
            !self.finished(),
        ensures
            forall|k: int|
                0 <= k < self.move_list().len() ==> #[trigger] self.turn_error(self.move_list()[k])
                    is None,
    {
        assert(player_ok(self.players@[self.curr_player_idx as int], self.round));
        self.lemma_market_buys_legal();
        self.lemma_reserved_buys_legal();
        self.lemma_reserves_legal();
        self.lemma_same_legal();
        self.lemma_three_legal();
        self.lemma_two_legal();
        self.lemma_one_legal();
        lemma_concat_legal(self, self.buy_market_moves(), self.buy_reserved_moves());
        lemma_concat_legal(
            self,
            self.buy_market_moves() + self.buy_reserved_moves(),
            self.reserve_moves(),
        );
        lemma_concat_legal(
            self,
            self.buy_market_moves() + self.buy_reserved_moves() + self.reserve_moves(),
            self.same_moves(),
        );
        lemma_concat_legal(
            self,
            self.buy_market_moves() + self.buy_reserved_moves() + self.reserve_moves()
                + self.same_moves(),
            self.three_moves(),
        );
        lemma_concat_legal(
            self,
            self.buy_market_moves() + self.buy_reserved_moves() + self.reserve_moves()
                + self.same_moves() + self.three_moves(),
            self.two_moves(),
        );
        lemma_concat_legal(
            self,
            self.buy_market_moves() + self.buy_reserved_moves() + self.reserve_moves()
                + self.same_moves() + self.three_moves() + self.two_moves(),
            self.one_moves(),
        );
        assert(self.color_error(seq![], 0) is None);
        assert(self.all_legal(self.move_list()));
    }

    /// Tokens are never created or destroyed: in every table reached from
    /// the start, each color's bank stock plus what the players hold equals
    /// the bank the game started with.
    pub proof fn lemma_tokens_conserved(self)
        requires
            self.wf(),
        ensures
            forall|c: int|
                0 <= c < 6 ==> self.bank@[c] + tokens_held(self.players@, c) == #[trigger] initial_bank(
                    self.num_players(),
                )[c],
    {
    }
}

impl GameState {
    /// A player's recorded points only rise: any later snapshot of the
    /// history has strictly more points, from a round no earlier.
    pub proof fn lemma_history_increasing(self, i: int, a: int, b: int)
        requires
            self.wf(),
            0 <= i < self.players@.len(),
            0 <= a < b < self.players@[i].vp_history@.len(),
        ensures
            self.players@[i].vp_history@[a].1 < self.players@[i].vp_history@[b].1,
            self.players@[i].vp_history@[a].0 <= self.players@[i].vp_history@[b].0,
        decreases b - a,
    {
        let h = self.players@[i].vp_history@;
        assert(player_ok(self.players@[i], self.round));
        assert(h[b].1 > h[b - 1].1 && h[b].0 >= h[b - 1].0);
        if a < b - 1 {
            self.lemma_history_increasing(i, a, b - 1);
        }
    }

    /// A move ends the game exactly when it closes a round (the last seat
    /// has moved) and some player then has the winning points; the cursor
    /// is then left one past the last seat.
    pub proof fn lemma_finish_rule(self, post: GameState, a: ActionModel, done: bool)
        requires
            self.wf(),
            !self.finished(),
            self.turn_taken(post, a, done),
        ensures
            done <==> (self.curr_player_idx + 1 == self.players@.len() && post.someone_won()),
            done <==> post.finished(),
            done ==> post.curr_player_idx == post.players@.len(),
    {
    }
}

impl GameState {
    /// In every table reached from the start, a player's points are those
    /// of the cards they own plus those of the nobles they received.
    pub proof fn lemma_points_earned(self, i: int)
        requires
            self.wf(),
            0 <= i < self.players@.len(),
        ensures
            self.players@[i].vp_spec() == crate::game_state::earned(self.players@[i]),
    {
        assert(player_ok(self.players@[i], self.round));
    }
}

} // verus!
