use crate::data_types::{Card, Noble};
use crate::game_state::{
    card_vp_total, cards_of, cards_ok, initial_bank, noble_vp_total, player_ok, player_sum, stake,
    GameState, MAX_CARDS, ROW_SIZE,
};
use crate::player::Player;
use crate::random::{random_below, shuffle};
use crate::tally::{lemma_sum_concat, lemma_sum_permutation, lemma_sum_prefix, lemma_sum_zero};
use vstd::prelude::*;

verus! {

/// Why a table could not be set up.
#[derive(Debug, Clone, Copy, PartialEq, Eq, Structural)]
pub enum SetupError {
    /// The number of players is outside 2 to 9.
    InvalidPlayerCount,
    /// A card is gold-colored, or its level is not the one of its pile.
    InvalidCard,
    /// A level has fewer cards than a market row holds.
    NotEnoughCards,
    /// More cards or points than the table's counters hold.
    TooLarge,
}

/// The cards of the given level, in order.
pub open spec fn level_cards(cards: Seq<Card>, level: int) -> Seq<Card> {
    cards.filter(|c: Card| c.level == level)
}

/// A player as created at the start.
pub open spec fn fresh(p: Player) -> bool {
    &&& p.tokens@ == seq![0u8, 0, 0, 0, 0, 0]
    &&& forall|i: int| 0 <= i < 5 ==> (#[trigger] p.owned@[i])@.len() == 0
    &&& p.reserved@.len() == 0
    &&& p.nobles@.len() == 0
    &&& p.vp_history@ == seq![(0u16, 0u8)]
}

/// Every card of level pile `l` (from 0) is a gem card of level `l + 1`.
pub open spec fn level_ok(cards: Seq<Card>, l: int) -> bool {
    forall|k: int| 0 <= k < cards.len() ==> (#[trigger] cards[k]).wf() && cards[k].level == l + 1
}

/// The three levels and the nobles fit the table's counters.
pub open spec fn fits(levels: Seq<Seq<Card>>, nobles: Seq<Noble>) -> bool {
    &&& levels[0].len() + levels[1].len() + levels[2].len() <= MAX_CARDS
    &&& card_vp_total(levels[0]) + card_vp_total(levels[1]) + card_vp_total(levels[2])
        + noble_vp_total(nobles) <= u8::MAX
}

pub open spec fn nobles_kept(num_players: int, available: int) -> int {
    if num_players + 1 < available {
        num_players + 1
    } else {
        available
    }
}

fn card_points_within(cards: &Vec<Card>, cap: u64) -> (r: Option<u64>)
    requires
        cap <= u8::MAX,
    ensures
        r matches Some(v) ==> v == card_vp_total(cards@) && v <= cap,
        r is None ==> card_vp_total(cards@) > cap,
{
    let ghost f = |c: Card| c.vp as int;
    let mut total: u64 = 0;
    let mut k: usize = 0;
    while k < cards.len()
        invariant
            0 <= k <= cards@.len(),
            cap <= u8::MAX,
            f == (|c: Card| c.vp as int),
            total == card_vp_total(cards@.take(k as int)),
            total <= cap,
        decreases cards@.len() - k,
    {
        proof {
            assert(cards@.take(k + 1) =~= cards@.take(k as int).push(cards@[k as int]));
            crate::game_state::lemma_card_vp_push(cards@.take(k as int), cards@[k as int]);
        }
        total = total + cards[k].vp as u64;
        if total > cap {
            proof {
                assert(cards@.map_values(f).take(k + 1) =~= cards@.take(k + 1).map_values(f));
                lemma_sum_prefix(cards@.map_values(f), k + 1);
            }
            return None;
        }
        k += 1;
    }
    proof {
        assert(cards@.take(k as int) =~= cards@);
    }
    Some(total)
}

fn noble_points_within(nobles: &Vec<Noble>, cap: u64) -> (r: Option<u64>)
    requires
        cap <= u8::MAX,
    ensures
        r matches Some(v) ==> v == noble_vp_total(nobles@) && v <= cap,
        r is None ==> noble_vp_total(nobles@) > cap,
{
    let ghost f = |n: Noble| n.vp as int;
    let mut total: u64 = 0;
    let mut k: usize = 0;
    while k < nobles.len()
        invariant
            0 <= k <= nobles@.len(),
            cap <= u8::MAX,
            f == (|n: Noble| n.vp as int),
            total == noble_vp_total(nobles@.take(k as int)),
            total <= cap,
        decreases nobles@.len() - k,
    {
        proof {
            let t = nobles@.take(k as int);
            assert(nobles@.take(k + 1) =~= t.push(nobles@[k as int]));
            assert(t.push(nobles@[k as int]).map_values(f) =~= t.map_values(f).push(
                nobles@[k as int].vp as int,
            ));
            crate::tally::lemma_sum_push(t.map_values(f), nobles@[k as int].vp as int);
        }
        total = total + nobles[k].vp as u64;
        if total > cap {
            proof {
                assert(nobles@.map_values(f).take(k + 1) =~= nobles@.take(k + 1).map_values(f));
                lemma_sum_prefix(nobles@.map_values(f), k + 1);
            }
            return None;
        }
        k += 1;
    }
    proof {
        assert(nobles@.take(k as int) =~= nobles@);
    }
    Some(total)
}

pub open spec fn level_seqs(levels: [Vec<Card>; 3]) -> Seq<Seq<Card>> {
    seq![levels@[0]@, levels@[1]@, levels@[2]@]
}

fn level_valid(cards: &Vec<Card>, l: usize) -> (r: bool)
    requires
        l < 3,
    ensures
        r == level_ok(cards@, l as int),
{
    let mut k: usize = 0;
    while k < cards.len()
        invariant
            0 <= k <= cards@.len(),
            l < 3,
            forall|m: int| 0 <= m < k ==> (#[trigger] cards@[m]).wf() && cards@[m].level == l + 1,
        decreases cards@.len() - k,
    {
        let c = &cards[k];
        if c.color == crate::data_types::Color::Gold || c.level != l + 1 {
            return false;
        }
        k += 1;
    }
    true
}

proof fn lemma_vp_split(cards: Seq<Card>, n: int)
    requires
        0 <= n <= cards.len(),
    ensures
        card_vp_total(cards.take(n)) + card_vp_total(cards.skip(n)) == card_vp_total(cards),
{
    let f = |c: Card| c.vp as int;
    assert(cards.map_values(f) =~= cards.take(n).map_values(f) + cards.skip(n).map_values(f));
    lemma_sum_concat(cards.take(n).map_values(f), cards.skip(n).map_values(f));
}

proof fn lemma_fresh_players(ps: Seq<Player>)
    requires
        forall|k: int| 0 <= k < ps.len() ==> fresh(#[trigger] ps[k]),
    ensures
        forall|c: int| 0 <= c < 6 ==> #[trigger] crate::game_state::tokens_held(ps, c) == 0,
        player_sum(ps, |p: Player| cards_of(p)) == 0,
        player_sum(ps, |p: Player| stake(p)) == 0,
        forall|k: int| 0 <= k < ps.len() ==> player_ok(#[trigger] ps[k], 1),
{
    assert forall|c: int| 0 <= c < 6 implies #[trigger] crate::game_state::tokens_held(ps, c) == 0 by {
        let f = |p: Player| p.token(c);
        assert forall|k: int| 0 <= k < ps.len() implies ps.map_values(f)[k] == 0 by {
            assert(fresh(ps[k]));
        }
        lemma_sum_zero(ps.map_values(f));
    }
    let g = |p: Player| cards_of(p);
    assert forall|k: int| 0 <= k < ps.len() implies ps.map_values(g)[k] == 0 by {
        assert(fresh(ps[k]));
        assert(ps[k].owned@[0]@.len() == 0);
        assert(ps[k].owned@[1]@.len() == 0);
        assert(ps[k].owned@[2]@.len() == 0);
        assert(ps[k].owned@[3]@.len() == 0);
        assert(ps[k].owned@[4]@.len() == 0);
    }
    lemma_sum_zero(ps.map_values(g));
    let h = |p: Player| stake(p);
    assert forall|k: int| 0 <= k < ps.len() implies ps.map_values(h)[k] == 0 by {
        assert(fresh(ps[k]));
        assert(ps[k].reserved@ =~= seq![]);
        assert(ps[k].reserved@.map_values(|c: Card| c.vp as int) =~= seq![]);
    }
    lemma_sum_zero(ps.map_values(h));
    assert forall|k: int| 0 <= k < ps.len() implies player_ok(#[trigger] ps[k], 1) by {
        assert(fresh(ps[k]));
        reveal(crate::game_state::earned);
        let p = ps[k];
        assert forall|i: int| 0 <= i < 5 implies crate::game_state::color_vp(#[trigger] p.owned@[i]@)
            == 0 by {
            assert(p.owned@[i]@.map_values(|v: u8| v as int) =~= seq![]);
        }
        assert(p.nobles@.map_values(|n: Noble| n.vp as int) =~= seq![]);
    }
}

impl GameState {
    /// Lays out a table from cards already put in order, level by level:
    /// the first four cards of each level form its market row and the rest
    /// its pile, whose top is the last card. The first `num_players + 1`
    /// nobles stay; all players start empty; `start` moves first.
    pub fn deal(num_players: usize, levels: [Vec<Card>; 3], nobles: Vec<Noble>, start: usize) -> (r:
        Result<GameState, SetupError>)
        requires
            2 <= num_players <= 9,
            start < num_players,
        ensures
            ({
                let ls = level_seqs(levels);
                if exists|l: int| 0 <= l < 3 && (#[trigger] ls[l]).len() < ROW_SIZE {
                    r == Err::<GameState, SetupError>(SetupError::NotEnoughCards)
                } else if exists|l: int| 0 <= l < 3 && !level_ok(#[trigger] ls[l], l) {
                    r == Err::<GameState, SetupError>(SetupError::InvalidCard)
                } else if !fits(ls, nobles@) {
                    r == Err::<GameState, SetupError>(SetupError::TooLarge)
                } else {
                    &&& r is Ok
                    &&& r->Ok_0.dealt_from(num_players as int, ls, nobles@, start as int)
                }
            }),
    {
        let mut l: usize = 0;
        while l < 3
            invariant
                0 <= l <= 3,
                forall|m: int| 0 <= m < l ==> (#[trigger] level_seqs(levels)[m]).len() >= ROW_SIZE,
            decreases 3 - l,
        {
            if levels[l].len() < ROW_SIZE {
                assert(level_seqs(levels)[l as int].len() < ROW_SIZE);
                return Err(SetupError::NotEnoughCards);
            }
            l += 1;
        }
        let mut l: usize = 0;
        while l < 3
            invariant
                0 <= l <= 3,
                forall|m: int| 0 <= m < 3 ==> (#[trigger] level_seqs(levels)[m]).len() >= ROW_SIZE,
                forall|m: int| 0 <= m < l ==> level_ok(#[trigger] level_seqs(levels)[m], m),
            decreases 3 - l,
        {
            if !level_valid(&levels[l], l) {
                assert(!level_ok(level_seqs(levels)[l as int], l as int));
                return Err(SetupError::InvalidCard);
            }
            l += 1;
        }
        proof {
            assert(level_seqs(levels)[0] == levels@[0]@);
            assert(level_seqs(levels)[1] == levels@[1]@);
            assert(level_seqs(levels)[2] == levels@[2]@);
        }
        if levels[0].len() > MAX_CARDS || levels[1].len() > MAX_CARDS || levels[2].len() > MAX_CARDS
            || levels[0].len() + levels[1].len() + levels[2].len() > MAX_CARDS {
            return Err(SetupError::TooLarge);
        }
        let v0 = match card_points_within(&levels[0], 255) {
            Some(v) => v,
            None => {
                proof {
                    crate::game_state::lemma_card_vp_nonneg(levels@[1]@);
                    crate::game_state::lemma_card_vp_nonneg(levels@[2]@);
                    crate::game_state::lemma_noble_vp_nonneg(nobles@);
                }
                return Err(SetupError::TooLarge);
            },
        };
        let v1 = match card_points_within(&levels[1], 255 - v0) {
            Some(v) => v,
            None => {
                proof {
                    crate::game_state::lemma_card_vp_nonneg(levels@[2]@);
                    crate::game_state::lemma_noble_vp_nonneg(nobles@);
                }
                return Err(SetupError::TooLarge);
            },
        };
        let v2 = match card_points_within(&levels[2], 255 - v0 - v1) {
            Some(v) => v,
            None => {
                proof {
                    crate::game_state::lemma_noble_vp_nonneg(nobles@);
                }
                return Err(SetupError::TooLarge);
            },
        };
        match noble_points_within(&nobles, 255 - v0 - v1 - v2) {
            Some(_) => {},
            None => {
                return Err(SetupError::TooLarge);
            },
        }
        let ghost ls = level_seqs(levels);
        let ghost all_nobles = nobles@;
        let mut levels = levels;
        let piles = [
            levels[0].split_off(ROW_SIZE),
            levels[1].split_off(ROW_SIZE),
            levels[2].split_off(ROW_SIZE),
        ];
        let mut nobles = nobles;
        nobles.truncate(num_players + 1);
        let mut players: Vec<Player> = Vec::new();
        let mut i: usize = 0;
        while i < num_players
            invariant
                0 <= i <= num_players,
                players@.len() == i,
                forall|k: int| 0 <= k < i ==> fresh(#[trigger] players@[k]),
            decreases num_players - i,
        {
            players.push(Player::default());
            i += 1;
        }
        let bank: [u8; 6] = if num_players == 2 {
            [4, 4, 4, 4, 4, 5]
        } else if num_players == 3 {
            [5, 5, 5, 5, 5, 5]
        } else {
            [7, 7, 7, 7, 7, 5]
        };
        let gs = GameState {
            piles,
            market: levels,
            nobles,
            bank,
            players,
            curr_player_idx: start,
            round: 1,
        };
        proof {
            assert(gs.bank@ =~= initial_bank(num_players as int));
            lemma_fresh_players(gs.players@);
            assert forall|m: int| 0 <= m < 3 implies #[trigger] gs.row(m) == ls[m].take(4) && gs.pile(
                m,
            ) == ls[m].skip(4) by {}
            lemma_vp_split(ls[0], 4);
            lemma_vp_split(ls[1], 4);
            lemma_vp_split(ls[2], 4);
            let f = |n: Noble| n.vp as int;
            assert(all_nobles.map_values(f).take(gs.nobles@.len() as int) =~= gs.nobles@.map_values(f));
            assert forall|k: int| 0 <= k < all_nobles.len() implies all_nobles.map_values(f)[k] >= 0 by {}
            lemma_sum_prefix(all_nobles.map_values(f), gs.nobles@.len() as int);
            assert forall|m: int| 0 <= m < 3 implies cards_ok(#[trigger] gs.row(m)) && cards_ok(gs.pile(m)) by {
                assert(level_ok(ls[m], m));
                assert forall|k: int| 0 <= k < gs.row(m).len() implies (#[trigger] gs.row(m)[k]).wf() by {
                    assert(gs.row(m)[k] == ls[m][k]);
                }
                assert forall|k: int| 0 <= k < gs.pile(m).len() implies (#[trigger] gs.pile(m)[k]).wf() by {
                    assert(gs.pile(m)[k] == ls[m][k + 4]);
                }
            }
            assert(gs.wf());
            assert(fits(ls, all_nobles));
            assert(!exists|l: int| 0 <= l < 3 && (#[trigger] ls[l]).len() < ROW_SIZE);
            assert(!exists|l: int| 0 <= l < 3 && !level_ok(#[trigger] ls[l], l));
            assert(gs.nobles@ =~= all_nobles.take(nobles_kept(num_players as int, all_nobles.len() as int)));
            assert(gs.dealt_from(num_players as int, ls, all_nobles, start as int));
        }
        Ok(gs)
    }

    /// The table `deal` lays out.
    pub open spec fn dealt_from(
        self,
        num_players: int,
        levels: Seq<Seq<Card>>,
        nobles: Seq<Noble>,
        start: int,
    ) -> bool {
        &&& self.wf()
        &&& forall|l: int|
            0 <= l < 3 ==> #[trigger] self.row(l) == levels[l].take(ROW_SIZE as int) && self.pile(l)
                == levels[l].skip(ROW_SIZE as int)
        &&& self.nobles@ == nobles.take(nobles_kept(num_players, nobles.len() as int))
        &&& self.bank@ == initial_bank(num_players)
        &&& self.players@.len() == num_players
        &&& forall|k: int| 0 <= k < num_players ==> fresh(#[trigger] self.players@[k])
        &&& self.curr_player_idx == start
        &&& self.round == 1
    }
}

/// Splits the cards by level, keeping their order.
pub fn cards_by_level(cards: &Vec<Card>) -> (r: [Vec<Card>; 3])
    ensures
        forall|l: int| 0 <= l < 3 ==> (#[trigger] r@[l])@ == level_cards(cards@, l + 1),
{
    let mut by_level: [Vec<Card>; 3] = [Vec::new(), Vec::new(), Vec::new()];
    let mut k: usize = 0;
    while k < cards.len()
        invariant
            0 <= k <= cards@.len(),
            forall|l: int|
                0 <= l < 3 ==> (#[trigger] by_level@[l])@ == level_cards(cards@.take(k as int), l + 1),
        decreases cards@.len() - k,
    {
        let c = cards[k];
        proof {
            let t = cards@.take(k + 1);
            assert(t.drop_last() =~= cards@.take(k as int));
            assert(t.last() == c);
            assert forall|l: int| 0 <= l < 3 implies #[trigger] level_cards(t, l + 1) == if c.level == l + 1 {
                level_cards(cards@.take(k as int), l + 1).push(c)
            } else {
                level_cards(cards@.take(k as int), l + 1)
            } by {
                reveal(Seq::filter);
            }
        }
        if c.level >= 1 && c.level <= 3 {
            by_level[c.level - 1].push(c);
        }
        k += 1;
    }
    proof {
        assert(cards@.take(k as int) =~= cards@);
    }
    by_level
}

/// Every card of the list is a gem card of level 1 to 3.
fn all_valid(cards: &Vec<Card>) -> (r: bool)
    ensures
        r == cards_ok(cards@),
{
    let mut k: usize = 0;
    while k < cards.len()
        invariant
            0 <= k <= cards@.len(),
            forall|m: int| 0 <= m < k ==> (#[trigger] cards@[m]).wf(),
        decreases cards@.len() - k,
    {
        let c = &cards[k];
        if c.color == crate::data_types::Color::Gold || c.level < 1 || c.level > 3 {
            return false;
        }
        k += 1;
    }
    true
}

/// A shuffled level keeps its cards: they are still proper cards of that
/// level, as many, with as many points.
proof fn lemma_shuffled_level(cards: Seq<Card>, shuffled: Seq<Card>, l: int)
    requires
        cards_ok(cards),
        0 <= l < 3,
        shuffled.to_multiset() == level_cards(cards, l + 1).to_multiset(),
    ensures
        level_ok(shuffled, l),
        shuffled.len() == level_cards(cards, l + 1).len(),
        card_vp_total(shuffled) == card_vp_total(level_cards(cards, l + 1)),
{
    broadcast use vstd::seq_lib::group_to_multiset_ensures;

    let lv = level_cards(cards, l + 1);
    lemma_sum_permutation(shuffled, lv, |c: Card| c.vp as int);
    assert forall|k: int| 0 <= k < shuffled.len() implies (#[trigger] shuffled[k]).wf()
        && shuffled[k].level == l + 1 by {
        let c = shuffled[k];
        assert(shuffled.contains(c));
        assert(shuffled.to_multiset().count(c) > 0);
        assert(lv.to_multiset().count(c) > 0);
        assert(lv.contains(c));
        let j = choose|j: int| 0 <= j < lv.len() && lv[j] == c;
        cards.lemma_filter_pred(|c: Card| c.level == l + 1, j);
        cards.lemma_filter_contains_rev(|c: Card| c.level == l + 1, c);
        let m = choose|m: int| 0 <= m < cards.len() && cards[m] == c;
        assert(cards[m].wf());
    }
}

impl GameState {
    /// A new table for `num_players` players from the given card and noble
    /// lists: each level is shuffled and dealt, the nobles are shuffled and
    /// `num_players + 1` of them kept, and a random seat moves first.
    pub fn init(num_players: usize, cards: Vec<Card>, nobles: Vec<Noble>) -> (r: Result<
        GameState,
        SetupError,
    >)
        ensures
            ({
                let ls = seq![
                    level_cards(cards@, 1),
                    level_cards(cards@, 2),
                    level_cards(cards@, 3),
                ];
                if !(2 <= num_players <= 9) {
                    r == Err::<GameState, SetupError>(SetupError::InvalidPlayerCount)
                } else if !cards_ok(cards@) {
                    r == Err::<GameState, SetupError>(SetupError::InvalidCard)
                } else if exists|l: int| 0 <= l < 3 && (#[trigger] ls[l]).len() < ROW_SIZE {
                    r == Err::<GameState, SetupError>(SetupError::NotEnoughCards)
                } else if !fits(ls, nobles@) {
                    r == Err::<GameState, SetupError>(SetupError::TooLarge)
                } else {
                    &&& r is Ok
                    &&& r->Ok_0.started_from(num_players as int, ls, nobles@)
                }
            }),
    {
        if num_players < 2 || num_players > 9 {
            return Err(SetupError::InvalidPlayerCount);
        }
        if !all_valid(&cards) {
            return Err(SetupError::InvalidCard);
        }
        let ghost ls = seq![
            level_cards(cards@, 1),
            level_cards(cards@, 2),
            level_cards(cards@, 3),
        ];
        let mut levels = cards_by_level(&cards);
        let ghost unshuffled = levels;
        shuffle(&mut levels[0]);
        shuffle(&mut levels[1]);
        shuffle(&mut levels[2]);
        let ghost all_nobles = nobles@;
        let mut nobles = nobles;
        shuffle(&mut nobles);
        let start = random_below(num_players);
        proof {
            assert(unshuffled@[0]@ == ls[0]);
            assert(unshuffled@[1]@ == ls[1]);
            assert(unshuffled@[2]@ == ls[2]);
            lemma_shuffled_level(cards@, levels@[0]@, 0);
            lemma_shuffled_level(cards@, levels@[1]@, 1);
            lemma_shuffled_level(cards@, levels@[2]@, 2);
            lemma_sum_permutation(nobles@, all_nobles, |n: Noble| n.vp as int);
            let dl = level_seqs(levels);
            assert(dl[0] == levels@[0]@);
            assert(dl[1] == levels@[1]@);
            assert(dl[2] == levels@[2]@);
            assert forall|l: int| 0 <= l < 3 implies level_ok(#[trigger] dl[l], l) by {}
            assert(fits(dl, nobles@) == fits(ls, all_nobles));
            assert((exists|l: int| 0 <= l < 3 && (#[trigger] dl[l]).len() < ROW_SIZE) == (exists|
                l: int,
            | 0 <= l < 3 && (#[trigger] ls[l]).len() < ROW_SIZE)) by {
                assert(dl[0].len() == ls[0].len());
                assert(dl[1].len() == ls[1].len());
                assert(dl[2].len() == ls[2].len());
            }
        }
        let ghost shuffled = level_seqs(levels);
        let ghost shuffled_nobles = nobles@;
        let r = GameState::deal(num_players, levels, nobles, start);
        proof {
            if r is Ok {
                let gs = r->Ok_0;
                assert(gs.dealt_from(num_players as int, shuffled, shuffled_nobles, start as int));
                broadcast use vstd::seq_lib::group_to_multiset_ensures;

                assert forall|l: int| 0 <= l < 3 implies (#[trigger] gs.row(l) + gs.pile(l)).to_multiset()
                    == ls[l].to_multiset() by {
                    assert(gs.row(l) + gs.pile(l) =~= shuffled[l]);
                }
                assert forall|k: int| 0 <= k < gs.nobles@.len() implies all_nobles.contains(
                    #[trigger] gs.nobles@[k],
                ) by {
                    let x = gs.nobles@[k];
                    assert(x == shuffled_nobles[k]);
                    assert(shuffled_nobles.contains(x));
                    assert(shuffled_nobles.to_multiset().count(x) > 0);
                    assert(all_nobles.to_multiset().count(x) > 0);
                }
                let kept = gs.nobles@.len() as int;
                assert(shuffled_nobles =~= shuffled_nobles.take(kept) + shuffled_nobles.skip(kept));
                vstd::seq_lib::lemma_multiset_commutative(
                    shuffled_nobles.take(kept),
                    shuffled_nobles.skip(kept),
                );
                assert(gs.nobles@ =~= shuffled_nobles.take(kept));
                assert(gs.nobles@.to_multiset().subset_of(all_nobles.to_multiset()));
            }
        }
        r
    }

    /// A table at the start of a game for `num_players` players dealt from
    /// the given levels and nobles, in some order.
    pub open spec fn started_from(self, num_players: int, levels: Seq<Seq<Card>>, nobles: Seq<
        Noble,
    >) -> bool {
        &&& self.wf()
        &&& forall|l: int|
            0 <= l < 3 ==> (#[trigger] self.row(l) + self.pile(l)).to_multiset()
                == levels[l].to_multiset() && self.row(l).len() == ROW_SIZE
        &&& self.nobles@.len() == nobles_kept(num_players, nobles.len() as int)
        &&& forall|k: int| 0 <= k < self.nobles@.len() ==> nobles.contains(#[trigger] self.nobles@[k])
        &&& self.nobles@.to_multiset().subset_of(nobles.to_multiset())
        &&& self.bank@ == initial_bank(num_players)
        &&& self.players@.len() == num_players
        &&& forall|k: int| 0 <= k < num_players ==> fresh(#[trigger] self.players@[k])
        &&& self.curr_player_idx < num_players
        &&& self.round == 1
    }
}

} // verus!
