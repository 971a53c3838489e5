use crate::data_types::{Card, Noble, GEMS, GOLD};
use vstd::prelude::*;

verus! {

/// Most cards a player may hold in reserve.
pub const MAX_RESERVED: usize = 3;

/// Most tokens a token-taking move may leave a player with.
pub const MAX_TOKENS: u8 = 10;

/// One player's ledger.
pub struct Player {
    /// Token counts: white, blue, green, red, black, gold.
    pub tokens: [u8; 6],
    /// Purchased cards by color, each recorded by its victory points.
    pub owned: [Vec<u8>; 5],
    /// Reserved cards, in the order they were reserved.
    pub reserved: Vec<Card>,
    /// Acquired nobles.
    pub nobles: Vec<Noble>,
    /// (round, victory points) snapshots, one per gain. The game table
    /// appends to it.
    pub vp_history: Vec<(u16, u8)>,
}

/// `a - b` when positive, else zero.
pub open spec fn excess(a: int, b: int) -> int {
    if a > b {
        a - b
    } else {
        0
    }
}

impl Player {
    pub open spec fn token(self, i: int) -> int {
        self.tokens@[i] as int
    }

    pub open spec fn token_total(self) -> int {
        self.token(0) + self.token(1) + self.token(2) + self.token(3) + self.token(4) + self.token(
            5,
        )
    }

    /// Number of owned cards of gem color `i`.
    pub open spec fn owned_count(self, i: int) -> int {
        self.owned@[i]@.len() as int
    }

    pub open spec fn owned_total(self) -> int {
        self.owned_count(0) + self.owned_count(1) + self.owned_count(2) + self.owned_count(3)
            + self.owned_count(4)
    }

    /// Victory points: the last recorded snapshot.
    pub open spec fn vp_spec(self) -> int {
        self.vp_history@.last().1 as int
    }

    /// Owned cards of color `i`, plus the tokens of that color if asked.
    pub open spec fn power(self, include_tokens: bool, i: int) -> int {
        self.owned_count(i) + if include_tokens {
            self.token(i)
        } else {
            0
        }
    }

    /// What gold must cover of color `i` of the card's cost.
    pub open spec fn shortfall(self, card: Card, i: int) -> int {
        excess(card.cost@[i] as int, self.power(true, i))
    }

    pub open spec fn total_shortfall(self, card: Card) -> int {
        self.shortfall(card, 0) + self.shortfall(card, 1) + self.shortfall(card, 2)
            + self.shortfall(card, 3) + self.shortfall(card, 4)
    }

    pub open spec fn affords(self, card: Card) -> bool {
        self.token(GOLD as int) >= self.total_shortfall(card)
    }

    /// Tokens of color `i` the card costs once owned cards are credited.
    pub open spec fn token_cost(self, card: Card, i: int) -> int {
        excess(card.cost@[i] as int, self.owned_count(i))
    }

    /// Tokens of color `i` itself handed over when buying the card.
    pub open spec fn colored_payment(self, card: Card, i: int) -> int {
        if self.token_cost(card, i) > self.token(i) {
            self.token(i)
        } else {
            self.token_cost(card, i)
        }
    }

    pub open spec fn qualifies(self, noble: Noble) -> bool {
        forall|i: int| 0 <= i < GEMS ==> noble.cost@[i] as int <= self.owned_count(i)
    }

    /// The noble at `j` is the one awarded: the player qualifies, no
    /// qualifying noble has more points, and none before it has as many.
    pub open spec fn is_best_noble(self, nobles: Seq<Noble>, j: int) -> bool {
        &&& 0 <= j < nobles.len()
        &&& self.qualifies(nobles[j])
        &&& forall|k: int|
            0 <= k < nobles.len() && #[trigger] self.qualifies(nobles[k]) ==> {
                ||| nobles[k].vp < nobles[j].vp
                ||| (k >= j && nobles[k].vp == nobles[j].vp)
            }
    }

    pub open spec fn qualifies_for_any(self, nobles: Seq<Noble>) -> bool {
        exists|k: int| 0 <= k < nobles.len() && #[trigger] self.qualifies(nobles[k])
    }

    pub open spec fn best_noble(self, nobles: Seq<Noble>) -> int {
        choose|j: int| self.is_best_noble(nobles, j)
    }

    /// Indices of the reserved cards among the first `n` that the player
    /// can afford, in order.
    pub open spec fn buyable_prefix(self, n: int) -> Seq<usize>
        decreases n,
    {
        if n <= 0 {
            seq![]
        } else if self.affords(self.reserved@[n - 1]) {
            self.buyable_prefix(n - 1).push((n - 1) as usize)
        } else {
            self.buyable_prefix(n - 1)
        }
    }

    /// The history is never empty, and each snapshot records a strict gain
    /// over the one before, in a round no earlier.
    pub open spec fn history_ok(self) -> bool {
        &&& self.vp_history@.len() > 0
        &&& forall|k: int|
            0 < k < self.vp_history@.len() ==> {
                &&& (#[trigger] self.vp_history@[k]).1 > self.vp_history@[k - 1].1
                &&& self.vp_history@[k].0 >= self.vp_history@[k - 1].0
            }
    }

    pub fn default() -> (r: Player)
        ensures
            r.tokens@ == seq![0u8, 0, 0, 0, 0, 0],
            forall|i: int| 0 <= i < GEMS ==> r.owned@[i]@.len() == 0,
            r.reserved@.len() == 0,
            r.nobles@.len() == 0,
            r.vp_history@ == seq![(0u16, 0u8)],
    {
        Player {
            tokens: [0, 0, 0, 0, 0, 0],
            owned: [Vec::new(), Vec::new(), Vec::new(), Vec::new(), Vec::new()],
            reserved: Vec::new(),
            nobles: Vec::new(),
            vp_history: vec![(0, 0)],
        }
    }

    pub fn num_tokens(&self) -> (r: u8)
        requires
            self.token_total() <= u8::MAX,
        ensures
            r == self.token_total(),
    {
        self.tokens[0] + self.tokens[1] + self.tokens[2] + self.tokens[3] + self.tokens[4]
            + self.tokens[5]
    }

    pub fn vp(&self) -> (r: u8)
        requires
            self.vp_history@.len() > 0,
        ensures
            r == self.vp_spec(),
    {
        self.vp_history[self.vp_history.len() - 1].1
    }

    pub fn num_owned_cards(&self) -> (r: usize)
        requires
            self.owned_total() <= usize::MAX,
        ensures
            r == self.owned_total(),
    {
        self.owned[0].len() + self.owned[1].len() + self.owned[2].len() + self.owned[3].len()
            + self.owned[4].len()
    }

    pub fn purchasing_power(&self, include_tokens: bool) -> (r: [u8; 5])
        requires
            forall|i: int| 0 <= i < GEMS ==> #[trigger] self.power(include_tokens, i) <= u8::MAX,
        ensures
            forall|i: int| 0 <= i < GEMS ==> r@[i] == #[trigger] self.power(include_tokens, i),
    {
        let mut power: [u8; 5] = [0, 0, 0, 0, 0];
        let mut i: usize = 0;
        while i < GEMS
            invariant
                0 <= i <= GEMS,
                forall|j: int| 0 <= j < GEMS ==> #[trigger] self.power(include_tokens, j) <= u8::MAX,
                forall|j: int| 0 <= j < i ==> power@[j] == #[trigger] self.power(include_tokens, j),
            decreases GEMS - i,
        {
            let held: u8 = if include_tokens {
                self.tokens[i]
            } else {
                0
            };
            assert(self.power(include_tokens, i as int) <= u8::MAX);
            power[i] = held + self.owned[i].len() as u8;
            i += 1;
        }
        power
    }

    /// What gold must cover of color `i`, computed without overflow.
    fn shortfall_of(&self, card: &Card, i: usize) -> (r: usize)
        requires
            i < GEMS,
        ensures
            r == self.shortfall(*card, i as int),
            r <= u8::MAX,
    {
        let cost = card.cost[i] as usize;
        let held = self.tokens[i] as usize;
        if cost > held && cost - held > self.owned[i].len() {
            cost - held - self.owned[i].len()
        } else {
            0
        }
    }

    pub fn can_buy(&self, card: &Card) -> (r: bool)
        ensures
            r == self.affords(*card),
    {
        let missing = self.shortfall_of(card, 0) + self.shortfall_of(card, 1)
            + self.shortfall_of(card, 2) + self.shortfall_of(card, 3) + self.shortfall_of(
            card,
            4,
        );
        self.tokens[GOLD] as usize >= missing
    }

    /// Pays for the card, color by color: tokens of the color first, gold
    /// for the rest; every token paid goes to the bank. The card's points
    /// join the owned cards of its color.
    pub fn buy(&mut self, card: Card, bank: &mut [u8; 6])
        requires
            old(self).affords(card),
            card.color.is_gem(),
            forall|i: int| 0 <= i < 6 ==> bank@[i] + old(self).tokens@[i] <= u8::MAX,
        ensures
            forall|i: int|
                0 <= i < GEMS ==> #[trigger] final(self).tokens@[i] == old(self).tokens@[i]
                    - old(self).colored_payment(card, i),
            forall|i: int|
                0 <= i < GEMS ==> #[trigger] final(bank)@[i] == old(bank)@[i]
                    + old(self).colored_payment(card, i),
            final(self).token(GOLD as int) == old(self).token(GOLD as int) - old(
                self,
            ).total_shortfall(card),
            final(bank)@[GOLD as int] == old(bank)@[GOLD as int] + old(self).total_shortfall(card),
            forall|i: int|
                0 <= i < GEMS && i != card.color.idx() ==> final(self).owned@[i] == old(
                    self,
                ).owned@[i],
            final(self).owned@[card.color.idx()]@ == old(self).owned@[card.color.idx()]@.push(
                card.vp,
            ),
            final(self).reserved@ == old(self).reserved@,
            final(self).nobles@ == old(self).nobles@,
            final(self).vp_history@ == old(self).vp_history@,
    {
        let ghost start = *self;
        let ghost bank0 = *bank;
        let mut i: usize = 0;
        while i < GEMS
            invariant
                0 <= i <= GEMS,
                start.affords(card),
                forall|j: int| 0 <= j < 6 ==> bank0@[j] + start.tokens@[j] <= u8::MAX,
                self.owned == start.owned,
                self.reserved@ == start.reserved@,
                self.nobles@ == start.nobles@,
                self.vp_history@ == start.vp_history@,
                forall|j: int|
                    0 <= j < i ==> #[trigger] self.tokens@[j] == start.tokens@[j]
                        - start.colored_payment(card, j),
                forall|j: int|
                    0 <= j < i ==> #[trigger] bank@[j] == bank0@[j] + start.colored_payment(card, j),
                forall|j: int| i <= j < GEMS ==> #[trigger] self.tokens@[j] == start.tokens@[j],
                forall|j: int| i <= j < GEMS ==> #[trigger] bank@[j] == bank0@[j],
                self.token(GOLD as int) == start.token(GOLD as int) - start.gold_paid_prefix(
                    card,
                    i as int,
                ),
                bank@[GOLD as int] == bank0@[GOLD as int] + start.gold_paid_prefix(card, i as int),
                start.gold_paid_prefix(card, i as int) <= start.total_shortfall(card),
            decreases GEMS - i,
        {
            proof {
                start.lemma_gold_prefix_step(card, i as int);
            }
            let cost = card.cost[i] as usize;
            let produced = self.owned[i].len();
            let token_cost: u8 = if cost > produced {
                (cost - produced) as u8
            } else {
                0
            };
            assert(token_cost == start.token_cost(card, i as int));
            assert(self.tokens@[i as int] == start.tokens@[i as int]);
            if token_cost > self.tokens[i] {
                let missing = token_cost - self.tokens[i];
                bank[GOLD] = bank[GOLD] + missing;
                self.tokens[GOLD] = self.tokens[GOLD] - missing;
                bank[i] = bank[i] + self.tokens[i];
                self.tokens[i] = 0;
            } else {
                bank[i] = bank[i] + token_cost;
                self.tokens[i] = self.tokens[i] - token_cost;
            }
            assert(self.token(i as int) == start.token(i as int) - start.colored_payment(card, i as int));
            i += 1;
        }
        proof {
            start.lemma_gold_prefix_step(card, 4);
        }
        let c = card.color.index();
        self.owned[c].push(card.vp);
    }

    /// Gold paid over the first `n` colors.
    pub open spec fn gold_paid_prefix(self, card: Card, n: int) -> int
        decreases n,
    {
        if n <= 0 {
            0
        } else {
            self.gold_paid_prefix(card, n - 1) + self.shortfall(card, n - 1)
        }
    }

    proof fn lemma_gold_prefix_step(self, card: Card, n: int)
        requires
            0 <= n < GEMS,
        ensures
            self.gold_paid_prefix(card, n + 1) == self.gold_paid_prefix(card, n) + self.shortfall(
                card,
                n,
            ),
            self.gold_paid_prefix(card, n + 1) <= self.total_shortfall(card),
            self.gold_paid_prefix(card, GEMS as int) == self.total_shortfall(card),
    {
        reveal_with_fuel(Player::gold_paid_prefix, 6);
    }

    pub fn can_acquire(&self, noble: &Noble) -> (r: bool)
        ensures
            r == self.qualifies(*noble),
    {
        let mut i: usize = 0;
        while i < GEMS
            invariant
                0 <= i <= GEMS,
                forall|j: int| 0 <= j < i ==> noble.cost@[j] as int <= self.owned_count(j),
            decreases GEMS - i,
        {
            if noble.cost[i] as usize > self.owned[i].len() {
                assert(!(noble.cost@[i as int] as int <= self.owned_count(i as int)));
                return false;
            }
            i += 1;
        }
        true
    }
    /// Awards the best noble the player qualifies for, taking it out of the
    /// pool, and returns its points; returns 0 when the player qualifies
    /// for none. Among nobles with the most points the earliest in the list wins.
    pub fn acquire_best_noble(&mut self, all_nobles: &mut Vec<Noble>) -> (r: u8)
        ensures
            !old(self).qualifies_for_any(old(all_nobles)@) ==> {
                &&& r == 0
                &&& final(all_nobles)@ == old(all_nobles)@
                &&& final(self).nobles@ == old(self).nobles@
            },
            old(self).qualifies_for_any(old(all_nobles)@) ==> {
                let j = old(self).best_noble(old(all_nobles)@);
                &&& old(self).is_best_noble(old(all_nobles)@, j)
                &&& r == old(all_nobles)@[j].vp
                &&& final(all_nobles)@ == old(all_nobles)@.remove(j)
                &&& final(self).nobles@ == old(self).nobles@.push(old(all_nobles)@[j])
            },
            final(self).tokens == old(self).tokens,
            final(self).owned == old(self).owned,
            final(self).reserved@ == old(self).reserved@,
            final(self).vp_history@ == old(self).vp_history@,
    {
        let mut best: Option<usize> = None;
        let mut k: usize = 0;
        while k < all_nobles.len()
            invariant
                0 <= k <= all_nobles@.len(),
                best is None ==> forall|m: int|
                    0 <= m < k ==> !#[trigger] self.qualifies(all_nobles@[m]),
                best matches Some(b) ==> b < k && self.is_best_noble(all_nobles@.take(k as int), b as int),
            decreases all_nobles@.len() - k,
        {
            if self.can_acquire(&all_nobles[k]) {
                let replace = match best {
                    None => true,
                    Some(b) => all_nobles[k].vp > all_nobles[b].vp,
                };
                if replace {
                    best = Some(k);
                }
            }
            proof {
                let next = all_nobles@.take(k + 1);
                assert(next =~= all_nobles@.take(k as int).push(all_nobles@[k as int]));
            }
            k += 1;
        }
        assert(all_nobles@.take(k as int) =~= all_nobles@);
        match best {
            None => 0,
            Some(b) => {
                proof {
                    self.lemma_best_noble_unique(all_nobles@, b as int);
                }
                let n = all_nobles.remove(b);
                self.nobles.push(n);
                n.vp
            },
        }
    }

    pub proof fn lemma_best_noble_unique(self, nobles: Seq<Noble>, j: int)
        requires
            self.is_best_noble(nobles, j),
        ensures
            self.qualifies_for_any(nobles),
            self.best_noble(nobles) == j,
    {
        assert(self.qualifies(nobles[j]));
        let c = self.best_noble(nobles);
        assert(self.is_best_noble(nobles, c));
        assert(self.qualifies(nobles[c]));
    }

    pub fn can_reserve(&self) -> (r: bool)
        ensures
            r == (self.reserved@.len() < MAX_RESERVED),
    {
        self.reserved.len() < MAX_RESERVED
    }

    pub fn peek_reserved(&self, index: usize) -> (r: Option<&Card>)
        ensures
            index < self.reserved@.len() ==> r == Some(&self.reserved@[index as int]),
            index >= self.reserved@.len() ==> r is None,
    {
        if index < self.reserved.len() {
            Some(&self.reserved[index])
        } else {
            None
        }
    }

    pub fn pop_reserved(&mut self, index: usize) -> (r: Option<Card>)
        ensures
            index < old(self).reserved@.len() ==> {
                &&& r == Some(old(self).reserved@[index as int])
                &&& final(self).reserved@ == old(self).reserved@.remove(index as int)
            },
            index >= old(self).reserved@.len() ==> {
                &&& r is None
                &&& final(self).reserved@ == old(self).reserved@
            },
            final(self).tokens == old(self).tokens,
            final(self).owned == old(self).owned,
            final(self).nobles@ == old(self).nobles@,
            final(self).vp_history@ == old(self).vp_history@,
    {
        if index >= self.reserved.len() {
            return None;
        }
        Some(self.reserved.remove(index))
    }

    /// Adds the card to the reserve; if the bank has gold and the player
    /// holds fewer than the token cap, one gold token moves to the player.
    pub fn reserve(&mut self, card: Card, bank_gold: &mut u8)
        requires
            old(self).token_total() <= u8::MAX,
        ensures
            final(self).reserved@ == old(self).reserved@.push(card),
            ({
                let grant = *old(bank_gold) > 0 && old(self).token_total() < MAX_TOKENS;
                &&& grant ==> *final(bank_gold) == *old(bank_gold) - 1
                    && final(self).tokens@ == old(self).tokens@.update(
                    GOLD as int,
                    (old(self).tokens@[GOLD as int] + 1) as u8,
                )
                &&& !grant ==> *final(bank_gold) == *old(bank_gold) && final(self).tokens
                    == old(self).tokens
            }),
            final(self).owned == old(self).owned,
            final(self).nobles@ == old(self).nobles@,
            final(self).vp_history@ == old(self).vp_history@,
    {
        self.reserved.push(card);
        if *bank_gold > 0 && self.num_tokens() < MAX_TOKENS {
            *bank_gold = *bank_gold - 1;
            self.tokens[GOLD] = self.tokens[GOLD] + 1;
        }
    }

    /// Indices of the reserved cards the player can afford, in order.
    pub fn buyable_reserved_cards(&self) -> (r: Vec<usize>)
        ensures
            r@ == self.buyable_prefix(self.reserved@.len() as int),
    {
        let mut out: Vec<usize> = Vec::new();
        let mut i: usize = 0;
        while i < self.reserved.len()
            invariant
                0 <= i <= self.reserved@.len(),
                out@ == self.buyable_prefix(i as int),
            decreases self.reserved@.len() - i,
        {
            if self.can_buy(&self.reserved[i]) {
                out.push(i);
            }
            i += 1;
        }
        out
    }
}

} // verus!
