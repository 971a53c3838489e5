use crate::data_types::{Action, ActionModel, CardLocation, Color, GEMS};
use crate::game_state::GameState;
use crate::player::{MAX_RESERVED, MAX_TOKENS};
use crate::turn::SAME_COLOR_FLOOR;
use vstd::prelude::*;

verus! {

/// `f(lo) + f(lo + 1) + ... + f(hi - 1)`, concatenated.
pub open spec fn gather(lo: int, hi: int, f: spec_fn(int) -> Seq<ActionModel>) -> Seq<
    ActionModel,
>
    decreases hi - lo,
{
    if hi <= lo {
        seq![]
    } else {
        gather(lo, hi - 1, f) + f(hi - 1)
    }
}

pub open spec fn models(v: Seq<Action>) -> Seq<ActionModel> {
    v.map_values(|a: Action| a@)
}

pub open spec fn one_if(b: bool, a: ActionModel) -> Seq<ActionModel> {
    if b {
        seq![a]
    } else {
        seq![]
    }
}

pub open spec fn market_loc(l: int, i: int) -> CardLocation {
    CardLocation::Market((l + 1) as usize, i as usize)
}

impl GameState {
    pub open spec fn stock(self, i: int) -> bool {
        self.bank@[i] > 0
    }

    /// Buying the market card at slot `i` of row `l`, if affordable.
    pub open spec fn buy_slot(self, l: int, i: int) -> Seq<ActionModel> {
        one_if(self.current().affords(self.row(l)[i]), ActionModel::Buy(market_loc(l, i)))
    }

    pub open spec fn buy_row(self, l: int) -> Seq<ActionModel> {
        gather(0, self.row(l).len() as int, |i: int| self.buy_slot(l, i))
    }

    pub open spec fn buy_market_moves(self) -> Seq<ActionModel> {
        gather(0, 3, |l: int| self.buy_row(l))
    }

    pub open spec fn buy_reserved_moves(self) -> Seq<ActionModel> {
        self.current().buyable_prefix(self.current().reserved@.len() as int).map_values(
            |i: usize| ActionModel::Buy(CardLocation::Reserve(i)),
        )
    }

    pub open spec fn reserve_row(self, l: int) -> Seq<ActionModel> {
        gather(
            0,
            self.row(l).len() as int,
            |i: int| seq![ActionModel::Reserve(market_loc(l, i))],
        ) + one_if(self.pile(l).len() > 0, ActionModel::Reserve(CardLocation::Pile((l + 1) as usize)))
    }

    pub open spec fn reserve_moves(self) -> Seq<ActionModel> {
        if self.current().reserved@.len() < MAX_RESERVED {
            gather(0, 3, |l: int| self.reserve_row(l))
        } else {
            seq![]
        }
    }

    pub open spec fn same_moves(self) -> Seq<ActionModel> {
        if self.current().token_total() + 2 <= MAX_TOKENS {
            gather(
                0,
                GEMS as int,
                |i: int|
                    one_if(
                        self.bank@[i] >= SAME_COLOR_FLOOR,
                        ActionModel::TakeSame(Color::of(i)),
                    ),
            )
        } else {
            seq![]
        }
    }

    pub open spec fn triple_k(self, i: int, j: int) -> Seq<ActionModel> {
        gather(
            j + 1,
            5,
            |k: int|
                one_if(
                    self.stock(k),
                    ActionModel::TakeDifferent(seq![Color::of(i), Color::of(j), Color::of(k)]),
                ),
        )
    }

    pub open spec fn triple_j(self, i: int) -> Seq<ActionModel> {
        gather(
            i + 1,
            4,
            |j: int|
                if self.stock(j) {
                    self.triple_k(i, j)
                } else {
                    seq![]
                },
        )
    }

    pub open spec fn three_moves(self) -> Seq<ActionModel> {
        if self.current().token_total() + 3 <= MAX_TOKENS {
            gather(
                0,
                3,
                |i: int|
                    if self.stock(i) {
                        self.triple_j(i)
                    } else {
                        seq![]
                    },
            )
        } else {
            seq![]
        }
    }

    pub open spec fn pair_j(self, i: int) -> Seq<ActionModel> {
        gather(
            i + 1,
            5,
            |j: int|
                one_if(self.stock(j), ActionModel::TakeDifferent(seq![Color::of(i), Color::of(j)])),
        )
    }

    pub open spec fn pairs(self) -> Seq<ActionModel> {
        gather(
            0,
            4,
            |i: int|
                if self.stock(i) {
                    self.pair_j(i)
                } else {
                    seq![]
                },
        )
    }

    /// Pairs of distinct colors, only where no three colors can be taken.
    pub open spec fn two_moves(self) -> Seq<ActionModel> {
        if self.current().token_total() + 2 <= MAX_TOKENS && self.three_moves().len() == 0 {
            self.pairs()
        } else {
            seq![]
        }
    }

    pub open spec fn singles(self) -> Seq<ActionModel> {
        gather(0, 5, |i: int| one_if(self.stock(i), ActionModel::TakeDifferent(seq![Color::of(i)])))
    }

    /// Single tokens, only where neither three nor two colors can be taken.
    pub open spec fn one_moves(self) -> Seq<ActionModel> {
        if self.current().token_total() + 1 <= MAX_TOKENS && self.three_moves().len() == 0
            && self.two_moves().len() == 0 {
            self.singles()
        } else {
            seq![]
        }
    }

    pub open spec fn all_moves(self) -> Seq<ActionModel> {
        self.buy_market_moves() + self.buy_reserved_moves() + self.reserve_moves()
            + self.same_moves() + self.three_moves() + self.two_moves() + self.one_moves()
    }

    /// The legal moves of the current player, in generation order; taking
    /// no token at all when nothing else is legal.
    pub open spec fn move_list(self) -> Seq<ActionModel> {
        if self.all_moves().len() == 0 {
            seq![ActionModel::TakeDifferent(seq![])]
        } else {
            self.all_moves()
        }
    }
}

fn push_move(v: &mut Vec<Action>, a: Action)
    ensures
        models(final(v)@) == models(old(v)@).push(a@),
{
    v.push(a);
    proof {
        assert(models(v@) =~= models(old(v)@).push(a@));
    }
}

proof fn lemma_gather_step(lo: int, hi: int, f: spec_fn(int) -> Seq<ActionModel>)
    requires
        lo <= hi,
    ensures
        gather(lo, hi + 1, f) == gather(lo, hi, f) + f(hi),
{
}

impl GameState {
    fn push_buy_market(&self, actions: &mut Vec<Action>)
        requires
            !self.finished(),
        ensures
            models(final(actions)@) == models(old(actions)@) + self.buy_market_moves(),
    {
        let ghost base = models(actions@);
        let p = self.curr_player();
        let mut l: usize = 0;
        while l < 3
            invariant
                0 <= l <= 3,
                *p == self.current(),
                models(actions@) == base + gather(0, l as int, |l: int| self.buy_row(l)),
            decreases 3 - l,
        {
            let ghost mid = models(actions@);
            let mut i: usize = 0;
            while i < self.market[l].len()
                invariant
                    0 <= l < 3,
                    0 <= i <= self.row(l as int).len(),
                    *p == self.current(),
                    models(actions@) == mid + gather(0, i as int, |i: int| self.buy_slot(l as int, i)),
                decreases self.row(l as int).len() - i,
            {
                proof {
                    lemma_gather_step(0, i as int, |i: int| self.buy_slot(l as int, i));
                }
                if p.can_buy(&self.market[l][i]) {
                    push_move(actions, Action::BuyCard(CardLocation::Market(l + 1, i)));
                }
                proof {
                    assert(models(actions@) =~= mid + gather(0, i + 1, |i: int| self.buy_slot(l as int, i)));
                }
                i += 1;
            }
            proof {
                lemma_gather_step(0, l as int, |l: int| self.buy_row(l));
                assert(models(actions@) =~= base + gather(0, l + 1, |l: int| self.buy_row(l)));
            }
            l += 1;
        }
    }

    fn push_buy_reserved(&self, actions: &mut Vec<Action>)
        requires
            !self.finished(),
        ensures
            models(final(actions)@) == models(old(actions)@) + self.buy_reserved_moves(),
    {
        let ghost base = models(actions@);
        let idxs = self.curr_player().buyable_reserved_cards();
        let mut k: usize = 0;
        while k < idxs.len()
            invariant
                0 <= k <= idxs@.len(),
                idxs@ == self.current().buyable_prefix(self.current().reserved@.len() as int),
                models(actions@) == base + idxs@.take(k as int).map_values(
                    |i: usize| ActionModel::Buy(CardLocation::Reserve(i)),
                ),
            decreases idxs@.len() - k,
        {
            push_move(actions, Action::BuyCard(CardLocation::Reserve(idxs[k])));
            proof {
                assert(idxs@.take(k + 1) =~= idxs@.take(k as int).push(idxs@[k as int]));
                assert(models(actions@) =~= base + idxs@.take(k + 1).map_values(
                    |i: usize| ActionModel::Buy(CardLocation::Reserve(i)),
                ));
            }
            k += 1;
        }
        proof {
            assert(idxs@.take(k as int) =~= idxs@);
        }
    }

    fn push_reserve(&self, actions: &mut Vec<Action>)
        requires
            !self.finished(),
        ensures
            models(final(actions)@) == models(old(actions)@) + self.reserve_moves(),
    {
        let ghost base = models(actions@);
        if !self.curr_player().can_reserve() {
            assert(models(actions@) =~= base + self.reserve_moves());
            return;
        }
        let mut l: usize = 0;
        while l < 3
            invariant
                0 <= l <= 3,
                self.current().reserved@.len() < MAX_RESERVED,
                models(actions@) == base + gather(0, l as int, |l: int| self.reserve_row(l)),
            decreases 3 - l,
        {
            let ghost mid = models(actions@);
            let mut i: usize = 0;
            while i < self.market[l].len()
                invariant
                    0 <= l < 3,
                    0 <= i <= self.row(l as int).len(),
                    models(actions@) == mid + gather(
                        0,
                        i as int,
                        |i: int| seq![ActionModel::Reserve(market_loc(l as int, i))],
                    ),
                decreases self.row(l as int).len() - i,
            {
                proof {
                    lemma_gather_step(
                        0,
                        i as int,
                        |i: int| seq![ActionModel::Reserve(market_loc(l as int, i))],
                    );
                }
                push_move(actions, Action::ReserveCard(CardLocation::Market(l + 1, i)));
                proof {
                    assert(models(actions@) =~= mid + gather(
                        0,
                        i + 1,
                        |i: int| seq![ActionModel::Reserve(market_loc(l as int, i))],
                    ));
                }
                i += 1;
            }
            if self.piles[l].len() > 0 {
                push_move(actions, Action::ReserveCard(CardLocation::Pile(l + 1)));
            }
            proof {
                lemma_gather_step(0, l as int, |l: int| self.reserve_row(l));
                assert(models(actions@) =~= base + gather(0, l + 1, |l: int| self.reserve_row(l)));
            }
            l += 1;
        }
    }

    fn push_same(&self, actions: &mut Vec<Action>, num_tokens: u8)
        requires
            !self.finished(),
            num_tokens == self.current().token_total(),
        ensures
            models(final(actions)@) == models(old(actions)@) + self.same_moves(),
    {
        let ghost base = models(actions@);
        let ghost f = |i: int|
            one_if(self.bank@[i] >= SAME_COLOR_FLOOR, ActionModel::TakeSame(Color::of(i)));
        if num_tokens > MAX_TOKENS - 2 {
            assert(models(actions@) =~= base + self.same_moves());
            return;
        }
        let mut i: usize = 0;
        while i < GEMS
            invariant
                0 <= i <= GEMS,
                num_tokens + 2 <= MAX_TOKENS,
                num_tokens == self.current().token_total(),
                f == (|i: int|
                    one_if(self.bank@[i] >= SAME_COLOR_FLOOR, ActionModel::TakeSame(Color::of(i)))),
                models(actions@) == base + gather(0, i as int, f),
            decreases GEMS - i,
        {
            proof {
                lemma_gather_step(0, i as int, f);
            }
            if self.bank[i] >= SAME_COLOR_FLOOR {
                push_move(actions, Action::TakeSameColorTokens(Color::from_index(i)));
            }
            proof {
                assert(models(actions@) =~= base + gather(0, i + 1, f));
            }
            i += 1;
        }
    }
}

/// The first `n` of the colors at positions `i`, `j`, `k`.
fn gem_list(i: usize, j: usize, k: usize, n: usize) -> (r: Vec<Color>)
    requires
        i < GEMS,
        j < GEMS,
        k < GEMS,
        n <= 3,
    ensures
        r@ == seq![Color::of(i as int), Color::of(j as int), Color::of(k as int)].take(n as int),
{
    let mut v: Vec<Color> = Vec::new();
    if n >= 1 {
        v.push(Color::from_index(i));
    }
    if n >= 2 {
        v.push(Color::from_index(j));
    }
    if n >= 3 {
        v.push(Color::from_index(k));
    }
    assert(v@ =~= seq![Color::of(i as int), Color::of(j as int), Color::of(k as int)].take(
        n as int,
    ));
    v
}

impl GameState {
    fn push_three(&self, actions: &mut Vec<Action>)
        ensures
            models(final(actions)@) == models(old(actions)@) + gather(
                0,
                3,
                |i: int|
                    if self.stock(i) {
                        self.triple_j(i)
                    } else {
                        seq![]
                    },
            ),
    {
        let ghost base = models(actions@);
        let ghost f = |i: int|
            if self.stock(i) {
                self.triple_j(i)
            } else {
                seq![]
            };
        let mut i: usize = 0;
        while i < 3
            invariant
                0 <= i <= 3,
                f == (|i: int|
                    if self.stock(i) {
                        self.triple_j(i)
                    } else {
                        seq![]
                    }),
                models(actions@) == base + gather(0, i as int, f),
            decreases 3 - i,
        {
            let ghost m1 = models(actions@);
            if self.bank[i] > 0 {
                let ghost g = |j: int|
                    if self.stock(j) {
                        self.triple_k(i as int, j)
                    } else {
                        seq![]
                    };
                let mut j: usize = i + 1;
                while j < 4
                    invariant
                        0 <= i < j <= 4,
                        g == (|j: int|
                            if self.stock(j) {
                                self.triple_k(i as int, j)
                            } else {
                                seq![]
                            }),
                        models(actions@) == m1 + gather(i + 1, j as int, g),
                    decreases 4 - j,
                {
                    let ghost m2 = models(actions@);
                    if self.bank[j] > 0 {
                        let ghost h = |k: int|
                            one_if(
                                self.stock(k),
                                ActionModel::TakeDifferent(
                                    seq![Color::of(i as int), Color::of(j as int), Color::of(k)],
                                ),
                            );
                        let mut k: usize = j + 1;
                        while k < GEMS
                            invariant
                                0 <= i < j < k <= GEMS,
                                h == (|k: int|
                                    one_if(
                                        self.stock(k),
                                        ActionModel::TakeDifferent(
                                            seq![Color::of(i as int), Color::of(j as int), Color::of(k)],
                                        ),
                                    )),
                                models(actions@) == m2 + gather(j + 1, k as int, h),
                            decreases GEMS - k,
                        {
                            proof {
                                lemma_gather_step(j + 1, k as int, h);
                            }
                            if self.bank[k] > 0 {
                                let cs = gem_list(i, j, k, 3);
                                proof {
                                    assert(cs@ =~= seq![Color::of(i as int), Color::of(j as int), Color::of(k as int)]);
                                }
                                push_move(actions, Action::TakeDifferentColorTokens(cs));
                            }
                            proof {
                                assert(models(actions@) =~= m2 + gather(j + 1, k + 1, h));
                            }
                            k += 1;
                        }
                        proof {
                            assert(self.triple_k(i as int, j as int) == gather(j + 1, 5, h));
                        }
                    }
                    proof {
                        lemma_gather_step(i + 1, j as int, g);
                        assert(models(actions@) =~= m1 + gather(i + 1, j + 1, g));
                    }
                    j += 1;
                }
                proof {
                    assert(self.triple_j(i as int) == gather(i + 1, 4, g));
                }
            }
            proof {
                lemma_gather_step(0, i as int, f);
                assert(models(actions@) =~= base + gather(0, i + 1, f));
            }
            i += 1;
        }
    }

    fn push_pairs(&self, actions: &mut Vec<Action>)
        ensures
            models(final(actions)@) == models(old(actions)@) + self.pairs(),
    {
        let ghost base = models(actions@);
        let ghost f = |i: int|
            if self.stock(i) {
                self.pair_j(i)
            } else {
                seq![]
            };
        let mut i: usize = 0;
        while i < 4
            invariant
                0 <= i <= 4,
                f == (|i: int|
                    if self.stock(i) {
                        self.pair_j(i)
                    } else {
                        seq![]
                    }),
                models(actions@) == base + gather(0, i as int, f),
            decreases 4 - i,
        {
            let ghost m1 = models(actions@);
            if self.bank[i] > 0 {
                let ghost g = |j: int|
                    one_if(
                        self.stock(j),
                        ActionModel::TakeDifferent(seq![Color::of(i as int), Color::of(j)]),
                    );
                let mut j: usize = i + 1;
                while j < GEMS
                    invariant
                        0 <= i < j <= GEMS,
                        g == (|j: int|
                            one_if(
                                self.stock(j),
                                ActionModel::TakeDifferent(seq![Color::of(i as int), Color::of(j)]),
                            )),
                        models(actions@) == m1 + gather(i + 1, j as int, g),
                    decreases GEMS - j,
                {
                    proof {
                        lemma_gather_step(i + 1, j as int, g);
                    }
                    if self.bank[j] > 0 {
                        let cs = gem_list(i, j, j, 2);
                        proof {
                            assert(cs@ =~= seq![Color::of(i as int), Color::of(j as int)]);
                        }
                        push_move(actions, Action::TakeDifferentColorTokens(cs));
                    }
                    proof {
                        assert(models(actions@) =~= m1 + gather(i + 1, j + 1, g));
                    }
                    j += 1;
                }
                proof {
                    assert(self.pair_j(i as int) == gather(i + 1, 5, g));
                }
            }
            proof {
                lemma_gather_step(0, i as int, f);
                assert(models(actions@) =~= base + gather(0, i + 1, f));
            }
            i += 1;
        }
    }

    fn push_singles(&self, actions: &mut Vec<Action>)
        ensures
            models(final(actions)@) == models(old(actions)@) + self.singles(),
    {
        let ghost base = models(actions@);
        let ghost f = |i: int| one_if(self.stock(i), ActionModel::TakeDifferent(seq![Color::of(i)]));
        let mut i: usize = 0;
        while i < GEMS
            invariant
                0 <= i <= GEMS,
                f == (|i: int| one_if(self.stock(i), ActionModel::TakeDifferent(seq![Color::of(i)]))),
                models(actions@) == base + gather(0, i as int, f),
            decreases GEMS - i,
        {
            proof {
                lemma_gather_step(0, i as int, f);
            }
            if self.bank[i] > 0 {
                let cs = gem_list(i, i, i, 1);
                proof {
                    assert(cs@ =~= seq![Color::of(i as int)]);
                }
                push_move(actions, Action::TakeDifferentColorTokens(cs));
            }
            proof {
                assert(models(actions@) =~= base + gather(0, i + 1, f));
            }
            i += 1;
        }
    }

    /// The legal moves of the current player, in a fixed order: buying
    /// from the market, buying from the reserve, reserving, two tokens of
    /// one color, three colors, then two colors if no three, then one color
    /// if neither; a move that takes nothing if no other move is legal.
    pub fn valid_actions(&self) -> (r: Vec<Action>)
        requires
            !self.finished(),
            self.current().token_total() <= u8::MAX,
        ensures
            models(r@) == self.move_list(),
            r@.len() > 0,
    {
        let mut actions: Vec<Action> = Vec::new();
        assert(models(actions@) =~= seq![]);
        self.push_buy_market(&mut actions);
        self.push_buy_reserved(&mut actions);
        self.push_reserve(&mut actions);
        let num_tokens = self.curr_player().num_tokens();
        self.push_same(&mut actions, num_tokens);
        let ghost before = models(actions@);
        let prev_num_actions = actions.len();
        if num_tokens <= MAX_TOKENS - 3 {
            self.push_three(&mut actions);
        }
        assert(models(actions@) =~= before + self.three_moves());
        let ghost after_three = models(actions@);
        if num_tokens <= MAX_TOKENS - 2 && actions.len() == prev_num_actions {
            self.push_pairs(&mut actions);
        }
        assert(models(actions@) =~= after_three + self.two_moves());
        let ghost after_two = models(actions@);
        if num_tokens <= MAX_TOKENS - 1 && actions.len() == prev_num_actions {
            self.push_singles(&mut actions);
        }
        assert(models(actions@) =~= after_two + self.one_moves());
        assert(models(actions@) =~= self.all_moves());
        if actions.len() == 0 {
            push_move(&mut actions, Action::TakeDifferentColorTokens(Vec::new()));
            assert(models(actions@) =~= self.move_list());
        }
        actions
    }
}

} // verus!
