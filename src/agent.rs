use crate::data_types::{Action, ActionModel, Card, CardLocation, Noble, GEMS};
use crate::game_state::{cards_of, lemma_player_sum_bound, player_ok, GameState};
use crate::moves::models;
use crate::player::{excess, Player};
use crate::random::random_below;
use vstd::prelude::*;

verus! {

/// A decision policy: given the table and its current player, picks one of
/// the legal moves.
pub trait Agent {
    fn choose_action(&self, game: &GameState) -> (r: Action)
        requires
            game.wf(),
            !game.finished(),
        ensures
            game.move_list().contains(r@),
    ;
}

/// Picks a legal move uniformly at random.
pub struct RandomAgent;

impl RandomAgent {
    pub fn default() -> (r: RandomAgent) {
        RandomAgent
    }
}

/// Picks at random among the legal moves of best score.
pub struct GreedyAgent {
    bonuses: ScoringBonuses,
}

impl GreedyAgent {
    #[verifier::type_invariant]
    spec fn inv(self) -> bool {
        self.bonuses.ok()
    }

    /// Weights for points, noble need, color need, and the divisor applied
    /// to reserving.
    pub closed spec fn weights(self) -> (int, int, int, int) {
        (
            self.bonuses.vp as int,
            self.bonuses.card_needed as int,
            self.bonuses.color_needed as int,
            self.bonuses.reserve_discount as int,
        )
    }

    /// The score this policy gives a legal move at the table.
    pub closed spec fn move_score(self, game: GameState, a: ActionModel) -> int {
        scoring_info(game).score(game, a, self.bonuses)
    }
}

/// The scoring summary of a table.
spec fn scoring_info(game: GameState) -> ScoringInfo {
    choose|info: ScoringInfo| info.describes(game)
}

/// Weights of the parts of a move's score.
struct ScoringBonuses {
    vp: i32,
    card_needed: i32,
    color_needed: i32,
    reserve_discount: i32,
}

impl ScoringBonuses {
    spec fn ok(self) -> bool {
        &&& 0 <= self.vp <= 1000
        &&& 0 <= self.card_needed <= 1000
        &&& 0 <= self.color_needed <= 1000
        &&& 1 <= self.reserve_discount <= 1000
    }
}

/// Either policy, as `create_agent` hands them out.
pub enum AnyAgent {
    Random(RandomAgent),
    Greedy(GreedyAgent),
}

impl AnyAgent {
    pub fn is_random(&self) -> (r: bool)
        ensures
            r == (*self is Random),
    {
        match self {
            AnyAgent::Random(_) => true,
            AnyAgent::Greedy(_) => false,
        }
    }
}

/// The policy for a difficulty level: 0 plays at random, 1 only seeks
/// points, higher levels also weigh nobles and colors.
pub fn create_agent(difficulty: usize) -> (r: AnyAgent)
    ensures
        (r is Random) == (difficulty == 0),
        difficulty == 1 ==> (r matches AnyAgent::Greedy(g) && g.weights() == (100int, 0int, 0int, 10int)),
        difficulty >= 2 ==> (r matches AnyAgent::Greedy(g) && g.weights() == (
            1000int,
            10int,
            1int,
            10int,
        )),
{
    if difficulty == 0 {
        AnyAgent::Random(RandomAgent::default())
    } else if difficulty == 1 {
        AnyAgent::Greedy(
            GreedyAgent {
                bonuses: ScoringBonuses {
                    vp: 100,
                    card_needed: 0,
                    color_needed: 0,
                    reserve_discount: 10,
                },
            },
        )
    } else {
        AnyAgent::Greedy(
            GreedyAgent {
                bonuses: ScoringBonuses {
                    vp: 1000,
                    card_needed: 10,
                    color_needed: 1,
                    reserve_discount: 10,
                },
            },
        )
    }
}

impl Agent for AnyAgent {
    fn choose_action(&self, game: &GameState) -> (r: Action) {
        match self {
            AnyAgent::Random(a) => a.choose_action(game),
            AnyAgent::Greedy(a) => a.choose_action(game),
        }
    }
}

impl Agent for RandomAgent {
    fn choose_action(&self, game: &GameState) -> (r: Action) {
        let mut actions = game.valid_actions();
        let i = random_below(actions.len());
        proof {
            assert(models(actions@)[i as int] == actions@[i as int]@);
        }
        actions.swap_remove(i)
    }
}

/// Points of a player toward each color: the most cards any noble still
/// asks for, and the market cards they cannot cover in that color.
struct ScoringInfo {
    cards_needed: [i32; 5],
    colors_needed: [i32; 5],
}

/// The most cards of color `i` that any of the first `k` nobles still asks
/// of a player owning `have` of them.
spec fn noble_need(nobles: Seq<Noble>, i: int, have: int, k: int) -> int
    decreases k,
{
    if k <= 0 {
        0
    } else {
        let rest = noble_need(nobles, i, have, k - 1);
        let here = excess(nobles[k - 1].cost@[i] as int, have);
        if here > rest {
            here
        } else {
            rest
        }
    }
}

/// How many of the first `k` cards cost more of color `i` than `power`.
spec fn short_count(cards: Seq<Card>, i: int, power: int, k: int) -> int
    decreases k,
{
    if k <= 0 {
        0
    } else {
        short_count(cards, i, power, k - 1) + if cards[k - 1].cost@[i] as int > power {
            1int
        } else {
            0
        }
    }
}

spec fn market_short(game: GameState, i: int) -> int {
    let pw = game.current().power(true, i);
    short_count(game.row(0), i, pw, game.row(0).len() as int) + short_count(
        game.row(1),
        i,
        pw,
        game.row(1).len() as int,
    ) + short_count(game.row(2), i, pw, game.row(2).len() as int)
}

impl ScoringInfo {
    spec fn describes(self, game: GameState) -> bool {
        forall|i: int|
            #![trigger self.cards_needed@[i]]
            #![trigger self.colors_needed@[i]]
            0 <= i < GEMS ==> {
                &&& self.cards_needed@[i] == noble_need(
                    game.nobles@,
                    i,
                    game.current().owned_count(i),
                    game.nobles@.len() as int,
                )
                &&& self.colors_needed@[i] == market_short(game, i)
                &&& 0 <= self.cards_needed@[i] <= 255
                &&& 0 <= self.colors_needed@[i] <= 12
            }
    }

    proof fn lemma_short_bound(cards: Seq<Card>, i: int, power: int, k: int)
        requires
            0 <= k,
        ensures
            0 <= short_count(cards, i, power, k) <= k,
        decreases k,
    {
        if k > 0 {
            Self::lemma_short_bound(cards, i, power, k - 1);
        }
    }

    fn new(game: &GameState) -> (r: ScoringInfo)
        requires
            game.wf(),
            !game.finished(),
        ensures
            r.describes(*game),
    {
        let me = game.curr_player();
        proof {
            let s = game.curr_player_idx as int;
            assert(player_ok(game.players@[s], game.round));
            let f = |p: Player| cards_of(p);
            assert forall|k: int| 0 <= k < game.players@.len() implies f(
                #[trigger] game.players@[k],
            ) >= 0 by {}
            lemma_player_sum_bound(game.players@, s, f);
            assert forall|i: int| 0 <= i < GEMS implies #[trigger] me.power(true, i) <= u8::MAX by {}
            assert forall|i: int| 0 <= i < GEMS implies #[trigger] me.power(false, i) <= u8::MAX by {}
        }
        let cards = me.purchasing_power(false);
        let power = me.purchasing_power(true);
        let mut cards_needed: [i32; 5] = [0, 0, 0, 0, 0];
        let mut colors_needed: [i32; 5] = [0, 0, 0, 0, 0];
        let mut i: usize = 0;
        while i < GEMS
            invariant
                0 <= i <= GEMS,
                game.wf(),
                !game.finished(),
                *me == game.current(),
                forall|j: int| 0 <= j < GEMS ==> cards@[j] == #[trigger] me.power(false, j),
                forall|j: int| 0 <= j < GEMS ==> power@[j] == #[trigger] me.power(true, j),
                forall|j: int|
                    0 <= j < i ==> {
                        &&& #[trigger] cards_needed@[j] == noble_need(
                            game.nobles@,
                            j,
                            me.owned_count(j),
                            game.nobles@.len() as int,
                        )
                        &&& colors_needed@[j] == market_short(*game, j)
                        &&& 0 <= cards_needed@[j] <= 255
                        &&& 0 <= colors_needed@[j] <= 12
                    },
            decreases GEMS - i,
        {
            let have = cards[i];
            assert(have == me.power(false, i as int));
            let mut most: i32 = 0;
            let mut k: usize = 0;
            while k < game.nobles.len()
                invariant
                    0 <= i < GEMS,
                    0 <= k <= game.nobles@.len(),
                    have == me.owned_count(i as int),
                    *me == game.current(),
                    most == noble_need(game.nobles@, i as int, have as int, k as int),
                    0 <= most <= 255,
                decreases game.nobles@.len() - k,
            {
                let c = game.nobles[k].cost[i];
                if c > have && (c - have) as i32 > most {
                    most = (c - have) as i32;
                }
                k += 1;
            }
            let pw = power[i];
            let mut count: i32 = 0;
            let mut l: usize = 0;
            while l < 3
                invariant
                    0 <= i < GEMS,
                    0 <= l <= 3,
                    game.wf(),
                    *me == game.current(),
                    pw == me.power(true, i as int),
                    count == (if l >= 1 {
                        short_count(game.row(0), i as int, pw as int, game.row(0).len() as int)
                    } else {
                        0
                    }) + (if l >= 2 {
                        short_count(game.row(1), i as int, pw as int, game.row(1).len() as int)
                    } else {
                        0
                    }) + (if l >= 3 {
                        short_count(game.row(2), i as int, pw as int, game.row(2).len() as int)
                    } else {
                        0
                    }),
                    0 <= count <= 4 * l,
                decreases 3 - l,
            {
                let row = &game.market[l];
                let ghost before = count;
                proof {
                    assert(game.row(l as int).len() <= 4);
                }
                let mut k: usize = 0;
                while k < row.len()
                    invariant
                        0 <= i < GEMS,
                        0 <= k <= row@.len(),
                        row@.len() <= 4,
                        count == before + short_count(row@, i as int, pw as int, k as int),
                        0 <= before <= 4 * l,
                        l < 3,
                    decreases row@.len() - k,
                {
                    proof {
                        Self::lemma_short_bound(row@, i as int, pw as int, k as int);
                    }
                    if row[k].cost[i] > pw {
                        count = count + 1;
                    }
                    k += 1;
                }
                proof {
                    Self::lemma_short_bound(row@, i as int, pw as int, k as int);
                }
                l += 1;
            }
            assert(most == noble_need(
                game.nobles@,
                i as int,
                me.owned_count(i as int),
                game.nobles@.len() as int,
            ));
            assert(count == market_short(*game, i as int));
            let ghost prev_cards = cards_needed;
            let ghost prev_colors = colors_needed;
            cards_needed[i] = most;
            colors_needed[i] = count;
            assert forall|j: int| 0 <= j < i implies cards_needed@[j] == prev_cards@[j]
                && colors_needed@[j] == prev_colors@[j] by {}
            i += 1;
        }
        ScoringInfo { cards_needed, colors_needed }
    }
}

/// Colors wanted among the first `k` of a multi-color take, weighted.
spec fn color_score(info: ScoringInfo, cs: Seq<crate::data_types::Color>, w: int, k: int) -> int
    decreases k,
{
    if k <= 0 {
        0
    } else {
        color_score(info, cs, w, k - 1) + info.colors_needed@[cs[k - 1].idx()] * w
    }
}

impl ScoringInfo {
    /// The score of a legal move.
    spec fn score(self, game: GameState, a: ActionModel, b: ScoringBonuses) -> int {
        match a {
            ActionModel::TakeDifferent(cs) => color_score(self, cs, b.color_needed as int, cs.len() as int),
            ActionModel::TakeSame(c) => self.colors_needed@[c.idx()] * b.color_needed,
            ActionModel::Buy(loc) => {
                let card = game.card_at(loc);
                let idx = card.color.idx();
                card.vp * b.vp + self.cards_needed@[idx] * b.card_needed + self.colors_needed@[idx]
                    * b.color_needed + if loc is Reserve {
                    1int
                } else {
                    0
                }
            },
            ActionModel::Reserve(loc) => if game.peek_error(loc) is None {
                let card = game.card_at(loc);
                (card.vp * b.vp + self.cards_needed@[card.color.idx()] * b.card_needed)
                    / (b.reserve_discount as int)
            } else {
                -1
            },
        }
    }

    fn score_action(&self, game: &GameState, action: &Action, bonuses: &ScoringBonuses) -> (r: i32)
        requires
            game.wf(),
            !game.finished(),
            self.describes(*game),
            bonuses.ok(),
            game.turn_error(action@) is None,
        ensures
            r == self.score(*game, action@, *bonuses),
    {
        proof {
            assert(player_ok(game.players@[game.curr_player_idx as int], game.round));
        }
        match action {
            Action::TakeDifferentColorTokens(colors) => {
                proof {
                    game.lemma_colors_clean(colors@, 0);
                }
                let mut total: i32 = 0;
                let mut k: usize = 0;
                while k < colors.len()
                    invariant
                        0 <= k <= colors@.len(),
                        colors@.len() <= 3,
                        self.describes(*game),
                        bonuses.ok(),
                        forall|m: int| 0 <= m < colors@.len() ==> (#[trigger] colors@[m]) !is Gold,
                        total == color_score(*self, colors@, bonuses.color_needed as int, k as int),
                        0 <= total <= 12000 * k,
                    decreases colors@.len() - k,
                {
                    let c = colors[k].index();
                    assert(0 <= self.colors_needed@[c as int] <= 12);
                    assert(0 <= self.colors_needed@[c as int] * bonuses.color_needed <= 12000)
                        by (nonlinear_arith)
                        requires
                            0 <= self.colors_needed@[c as int] <= 12,
                            0 <= bonuses.color_needed <= 1000,
                    ;
                    total = total + self.colors_needed[c] * bonuses.color_needed;
                    k += 1;
                }
                total
            },
            Action::TakeSameColorTokens(color) => {
                let c = color.index();
                assert(0 <= self.colors_needed@[c as int] <= 12);
                assert(0 <= self.colors_needed@[c as int] * bonuses.color_needed <= 12000)
                    by (nonlinear_arith)
                    requires
                        0 <= self.colors_needed@[c as int] <= 12,
                        0 <= bonuses.color_needed <= 1000,
                ;
                self.colors_needed[c] * bonuses.color_needed
            },
            Action::BuyCard(loc) => {
                let card = match game.peek_card(loc) {
                    Ok(c) => c,
                    Err(_) => {
                        return 0;
                    },
                };
                proof {
                    if *loc is Reserve {
                        assert(game.current().reserved@[loc->Reserve_0 as int].wf());
                    } else {
                        let l = loc->Market_0 - 1;
                        assert(crate::game_state::cards_ok(game.row(l)));
                        assert(game.row(l)[loc->Market_1 as int].wf());
                    }
                }
                let loc_bonus: i32 = match loc {
                    CardLocation::Reserve(_) => 1,
                    _ => 0,
                };
                let idx = card.color.index();
                let v = self.score_parts(card.vp, idx, bonuses);
                assert(0 <= self.colors_needed@[idx as int] * bonuses.color_needed <= 12000)
                    by (nonlinear_arith)
                    requires
                        0 <= self.colors_needed@[idx as int] <= 12,
                        0 <= bonuses.color_needed <= 1000,
                ;
                v + self.colors_needed[idx] * bonuses.color_needed + loc_bonus
            },
            Action::ReserveCard(loc) => {
                match game.peek_card(loc) {
                    Ok(card) => {
                        proof {
                            if *loc is Reserve {
                                assert(game.current().reserved@[loc->Reserve_0 as int].wf());
                            } else {
                                let l = loc->Market_0 - 1;
                                assert(crate::game_state::cards_ok(game.row(l)));
                                assert(game.row(l)[loc->Market_1 as int].wf());
                            }
                        }
                        let idx = card.color.index();
                        self.score_parts(card.vp, idx, bonuses) / bonuses.reserve_discount
                    },
                    Err(_) => -1,
                }
            },
        }
    }

    /// Points and noble need of a card, weighted.
    fn score_parts(&self, vp: u8, idx: usize, bonuses: &ScoringBonuses) -> (r: i32)
        requires
            idx < GEMS,
            self.cards_needed@[idx as int] <= 255,
            0 <= self.cards_needed@[idx as int],
            bonuses.ok(),
        ensures
            r == vp * bonuses.vp + self.cards_needed@[idx as int] * bonuses.card_needed,
            0 <= r <= 510000,
    {
        assert(0 <= vp * bonuses.vp <= 255000) by (nonlinear_arith)
            requires
                0 <= vp <= 255,
                0 <= bonuses.vp <= 1000,
        ;
        assert(0 <= self.cards_needed@[idx as int] * bonuses.card_needed <= 255000)
            by (nonlinear_arith)
            requires
                0 <= self.cards_needed@[idx as int] <= 255,
                0 <= bonuses.card_needed <= 1000,
        ;
        vp as i32 * bonuses.vp + self.cards_needed[idx] * bonuses.card_needed
    }
}

/// Positions of the largest value, in order.
fn best_indices(scores: &Vec<i32>) -> (r: Vec<usize>)
    requires
        scores@.len() > 0,
    ensures
        r@.len() > 0,
        forall|k: int| 0 <= k < r@.len() ==> (#[trigger] r@[k]) < scores@.len(),
        forall|k: int, m: int|
            #![trigger r@[k], scores@[m]]
            0 <= k < r@.len() && 0 <= m < scores@.len() ==> scores@[m] <= scores@[r@[k] as int],
{
    let mut best = scores[0];
    let mut k: usize = 1;
    while k < scores.len()
        invariant
            1 <= k <= scores@.len(),
            exists|m: int| 0 <= m < k && scores@[m] == best,
            forall|m: int| 0 <= m < k ==> scores@[m] <= best,
        decreases scores@.len() - k,
    {
        if scores[k] > best {
            best = scores[k];
        }
        k += 1;
    }
    let mut out: Vec<usize> = Vec::new();
    let mut k: usize = 0;
    while k < scores.len()
        invariant
            0 <= k <= scores@.len(),
            exists|m: int| 0 <= m < scores@.len() && scores@[m] == best,
            forall|m: int| 0 <= m < scores@.len() ==> scores@[m] <= best,
            forall|j: int| 0 <= j < out@.len() ==> (#[trigger] out@[j]) < k && scores@[out@[j] as int] == best,
            out@.len() == 0 ==> forall|m: int| 0 <= m < k ==> scores@[m] != best,
        decreases scores@.len() - k,
    {
        if scores[k] == best {
            out.push(k);
        }
        k += 1;
    }
    out
}

impl ScoringInfo {
    /// The table fixes its scoring summary.
    proof fn lemma_unique(self, game: GameState)
        requires
            self.describes(game),
        ensures
            self == scoring_info(game),
    {
        let other = scoring_info(game);
        assert(other.describes(game));
        assert(self.cards_needed =~= other.cards_needed) by {
            assert forall|i: int| 0 <= i < 5 implies self.cards_needed@[i] == other.cards_needed@[i] by {
                assert(self.cards_needed@[i] == other.cards_needed@[i]);
            }
        }
        assert(self.colors_needed =~= other.colors_needed) by {
            assert forall|i: int| 0 <= i < 5 implies self.colors_needed@[i] == other.colors_needed@[i] by {
                assert(self.colors_needed@[i] == other.colors_needed@[i]);
            }
        }
    }
}

impl GreedyAgent {
    /// A legal move of top score, drawn at random among the top-scoring
    /// ones; the only legal move when there is just one.
    pub fn choose_best(&self, game: &GameState) -> (r: Action)
        requires
            game.wf(),
            !game.finished(),
        ensures
            game.move_list().contains(r@),
            forall|m: int|
                0 <= m < game.move_list().len() ==> self.move_score(*game, #[trigger] game.move_list()[m])
                    <= self.move_score(*game, r@),
            game.move_list().len() == 1 ==> r@ == game.move_list()[0],
    {
        proof {
            use_type_invariant(self);
            assert(player_ok(game.players@[game.curr_player_idx as int], game.round));
        }
        let mut actions = game.valid_actions();
        proof {
            assert(models(actions@).len() == actions@.len());
        }
        if actions.len() == 1 {
            proof {
                assert(models(actions@)[0] == actions@[0]@);
            }
            return actions.swap_remove(0);
        }
        proof {
            game.lemma_valid_actions_legal();
        }
        let info = ScoringInfo::new(game);
        proof {
            info.lemma_unique(*game);
        }
        let mut scores: Vec<i32> = Vec::new();
        let mut k: usize = 0;
        while k < actions.len()
            invariant
                0 <= k <= actions@.len(),
                game.wf(),
                !game.finished(),
                info.describes(*game),
                info == scoring_info(*game),
                self.bonuses.ok(),
                models(actions@) == game.move_list(),
                forall|j: int|
                    0 <= j < game.move_list().len() ==> #[trigger] game.turn_error(game.move_list()[j])
                        is None,
                scores@.len() == k,
                forall|j: int|
                    0 <= j < k ==> #[trigger] scores@[j] == self.move_score(*game, actions@[j]@),
            decreases actions@.len() - k,
        {
            proof {
                assert(models(actions@)[k as int] == actions@[k as int]@);
            }
            let s = info.score_action(game, &actions[k], &self.bonuses);
            scores.push(s);
            k += 1;
        }
        let best = best_indices(&scores);
        let pick = random_below(best.len());
        let i = best[pick];
        proof {
            assert(models(actions@)[i as int] == actions@[i as int]@);
            assert forall|m: int| 0 <= m < game.move_list().len() implies self.move_score(
                *game,
                #[trigger] game.move_list()[m],
            ) <= self.move_score(*game, actions@[i as int]@) by {
                assert(models(actions@)[m] == actions@[m]@);
                assert(scores@[m] <= scores@[best@[pick as int] as int]);
                assert(scores@[m] == self.move_score(*game, actions@[m]@));
                assert(scores@[i as int] == self.move_score(*game, actions@[i as int]@));
            }
        }
        actions.swap_remove(i)
    }
}

impl Agent for GreedyAgent {
    fn choose_action(&self, game: &GameState) -> (r: Action) {
        self.choose_best(game)
    }
}

} // verus!
