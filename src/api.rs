use crate::agent::{Agent, AnyAgent};
use crate::data_types::Action;
use crate::game_state::{GameState, IllegalAction};
use vstd::prelude::*;

verus! {

impl GameState {
    /// Player `i` wins: most points, and among those with most points the
    /// fewest owned cards, the earliest seat breaking a remaining tie.
    pub open spec fn is_winner(self, i: int) -> bool {
        let ps = self.players@;
        &&& 0 <= i < ps.len()
        &&& forall|j: int| 0 <= j < ps.len() ==> (#[trigger] ps[j]).vp_spec() <= ps[i].vp_spec()
        &&& forall|j: int|
            0 <= j < ps.len() && (#[trigger] ps[j]).vp_spec() == ps[i].vp_spec() ==> {
                ||| ps[j].owned_total() > ps[i].owned_total()
                ||| (ps[j].owned_total() == ps[i].owned_total() && j >= i)
            }
    }

    /// The winner's seat once the game is over.
    pub fn winner(&self) -> (r: Option<usize>)
        requires
            forall|i: int|
                0 <= i < self.players@.len() ==> (#[trigger] self.players@[i]).vp_history@.len()
                    > 0 && self.players@[i].owned_total() <= usize::MAX,
        ensures
            !self.finished() ==> r is None,
            self.finished() && self.players@.len() > 0 ==> (r matches Some(i) && self.is_winner(
                i as int,
            )),
    {
        if !self.is_finished() || self.players.len() == 0 {
            return None;
        }
        let n = self.players.len();
        let mut max_vp: u8 = self.players[0].vp();
        let mut k: usize = 1;
        while k < n
            invariant
                1 <= k <= n,
                n == self.players@.len(),
                forall|i: int| 0 <= i < n ==> (#[trigger] self.players@[i]).vp_history@.len() > 0,
                exists|m: int| 0 <= m < k && self.players@[m].vp_spec() == max_vp,
                forall|m: int| 0 <= m < k ==> (#[trigger] self.players@[m]).vp_spec() <= max_vp,
            decreases n - k,
        {
            let v = self.players[k].vp();
            if v > max_vp {
                max_vp = v;
            }
            k += 1;
        }
        let mut best: Option<usize> = None;
        let mut k: usize = 0;
        while k < n
            invariant
                0 <= k <= n,
                n == self.players@.len(),
                forall|i: int|
                    0 <= i < n ==> (#[trigger] self.players@[i]).vp_history@.len() > 0
                        && self.players@[i].owned_total() <= usize::MAX,
                exists|m: int| 0 <= m < n && self.players@[m].vp_spec() == max_vp,
                forall|m: int| 0 <= m < n ==> (#[trigger] self.players@[m]).vp_spec() <= max_vp,
                best is None ==> forall|m: int|
                    0 <= m < k ==> (#[trigger] self.players@[m]).vp_spec() != max_vp,
                best matches Some(b) ==> {
                    &&& b < k
                    &&& self.players@[b as int].vp_spec() == max_vp
                    &&& forall|m: int|
                        0 <= m < k && (#[trigger] self.players@[m]).vp_spec() == max_vp ==> {
                            ||| self.players@[m].owned_total() > self.players@[b as int].owned_total()
                            ||| (self.players@[m].owned_total()
                                == self.players@[b as int].owned_total() && m >= b)
                        }
                },
            decreases n - k,
        {
            if self.players[k].vp() == max_vp {
                match best {
                    None => {
                        best = Some(k);
                    },
                    Some(b) => {
                        if self.players[k].num_owned_cards() < self.players[b].num_owned_cards() {
                            best = Some(k);
                        }
                    },
                }
            }
            k += 1;
        }
        best
    }
}

/// A game session: the table, the players' identifiers in seat order, and
/// for each seat its policy, or none for a human.
pub struct ReichtumAPI {
    state: GameState,
    player_ids: Vec<String>,
    agents: Vec<Option<AnyAgent>>,
    game_over: bool,
}

impl ReichtumAPI {
    pub closed spec fn table(self) -> GameState {
        self.state
    }

    pub closed spec fn ids(self) -> Seq<String> {
        self.player_ids@
    }

    pub closed spec fn seats(self) -> Seq<Option<AnyAgent>> {
        self.agents@
    }

    pub closed spec fn over(self) -> bool {
        self.game_over
    }

    /// A session whose seats line up with the table's players.
    pub open spec fn ok(self) -> bool {
        &&& self.table().wf()
        &&& self.ids().len() == self.table().players@.len()
        &&& self.seats().len() == self.table().players@.len()
        &&& self.over() == self.table().finished()
    }

    pub fn new(state: GameState, player_ids: Vec<String>, agents: Vec<Option<AnyAgent>>) -> (r:
        ReichtumAPI)
        ensures
            r.table() == state,
            r.ids() == player_ids@,
            r.seats() == agents@,
            r.over() == state.finished(),
    {
        let game_over = state.is_finished();
        ReichtumAPI { state, player_ids, agents, game_over }
    }

    /// A stored game opened for viewing: every seat is human and no move
    /// is taken any more.
    pub fn for_viewing(state: GameState, player_ids: Vec<String>) -> (r: ReichtumAPI)
        ensures
            r.table() == state,
            r.ids() == player_ids@,
            r.seats().len() == player_ids@.len(),
            forall|i: int| 0 <= i < r.seats().len() ==> #[trigger] r.seats()[i] is None,
            r.over(),
    {
        let mut agents: Vec<Option<AnyAgent>> = Vec::new();
        let mut i: usize = 0;
        while i < player_ids.len()
            invariant
                0 <= i <= player_ids@.len(),
                agents@.len() == i,
                forall|k: int| 0 <= k < i ==> #[trigger] agents@[k] is None,
            decreases player_ids@.len() - i,
        {
            agents.push(None);
            i += 1;
        }
        ReichtumAPI { state, player_ids, agents, game_over: true }
    }

    pub fn state(&self) -> (r: &GameState)
        ensures
            *r == self.table(),
    {
        &self.state
    }

    pub fn player_ids(&self) -> (r: &Vec<String>)
        ensures
            r@ == self.ids(),
    {
        &self.player_ids
    }

    pub fn is_game_over(&self) -> (r: bool)
        ensures
            r == self.over(),
    {
        self.game_over
    }

    /// The winner's identifier once the game is over.
    pub fn winner_id(&self) -> (r: Option<&str>)
        requires
            self.ok(),
        ensures
            !self.table().finished() ==> r is None,
            self.table().finished() ==> exists|i: int|
                #![trigger self.ids()[i]]
                self.table().is_winner(i) && r is Some && r->Some_0@ == self.ids()[i]@,
    {
        proof {
            self.state.lemma_counts_fit();
        }
        match self.state.winner() {
            None => None,
            Some(i) => Some(self.player_ids[i].as_str()),
        }
    }

    /// Seats played by humans, in order.
    pub fn human_player_idxs(&self) -> (r: Vec<usize>)
        ensures
            forall|k: int| 0 <= k < r@.len() ==> (#[trigger] r@[k]) < self.seats().len(),
            forall|k: int| 0 <= k < r@.len() ==> self.seats()[#[trigger] r@[k] as int] is None,
            forall|i: int|
                0 <= i < self.seats().len() && #[trigger] self.seats()[i] is None ==> r@.contains(
                    i as usize,
                ),
            forall|k: int, m: int| 0 <= k < m < r@.len() ==> r@[k] < r@[m],
    {
        let mut out: Vec<usize> = Vec::new();
        let mut i: usize = 0;
        while i < self.agents.len()
            invariant
                0 <= i <= self.seats().len(),
                forall|k: int| 0 <= k < out@.len() ==> (#[trigger] out@[k]) < i,
                forall|k: int| 0 <= k < out@.len() ==> self.seats()[#[trigger] out@[k] as int] is None,
                forall|j: int|
                    0 <= j < i && #[trigger] self.seats()[j] is None ==> out@.contains(j as usize),
                forall|k: int, m: int| 0 <= k < m < out@.len() ==> out@[k] < out@[m],
            decreases self.seats().len() - i,
        {
            let ghost before = out@;
            if self.agents[i].is_none() {
                out.push(i);
            }
            proof {
                assert forall|j: int|
                    0 <= j < i + 1 && #[trigger] self.seats()[j] is None implies out@.contains(
                    j as usize,
                ) by {
                    if j == i {
                        assert(out@[out@.len() - 1] == i);
                    } else {
                        assert(before.contains(j as usize));
                        let w = choose|w: int| 0 <= w < before.len() && before[w] == j as usize;
                        assert(out@[w] == j as usize);
                    }
                }
            }
            i += 1;
        }
        out
    }

    /// Applies a move of the seat to play; records whether the game ended.
    pub fn do_action(&mut self, action: &Action) -> (r: Result<bool, IllegalAction>)
        requires
            old(self).ok(),
            !old(self).over(),
            old(self).table().round < u16::MAX,
        ensures
            final(self).ok(),
            final(self).ids() == old(self).ids(),
            final(self).seats() == old(self).seats(),
            old(self).table().turn_error(action@) matches Some(e) ==> r == Err::<bool, IllegalAction>(
                e,
            ) && final(self).table() == old(self).table(),
            old(self).table().turn_error(action@) is None ==> r is Ok && old(
                self,
            ).table().turn_taken(final(self).table(), action@, r->Ok_0),
            r matches Ok(done) ==> final(self).over() == done,
    {
        let r = self.state.take_turn(action);
        if let Ok(done) = r {
            self.game_over = done;
        }
        r
    }

    /// The move of the seat to play when a policy plays it and the game
    /// goes on; none when the game is over or a human is to move.
    pub fn agent_action(&self) -> (r: Option<Action>)
        requires
            self.ok(),
        ensures
            r is Some <==> (!self.over() && self.seats()[self.table().curr_player_idx as int] is Some),
            r matches Some(a) ==> self.table().move_list().contains(a@),
    {
        if self.game_over {
            return None;
        }
        match &self.agents[self.state.curr_player_idx] {
            Some(ai) => Some(ai.choose_action(&self.state)),
            None => None,
        }
    }

    /// Each player's points, in seat order.
    pub fn player_scores(&self) -> (r: Vec<i32>)
        requires
            self.ok(),
        ensures
            r@.len() == self.table().players@.len(),
            forall|i: int| 0 <= i < r@.len() ==> r@[i] == (#[trigger] self.table().players@[i]).vp_spec(),
    {
        let mut out: Vec<i32> = Vec::new();
        let mut i: usize = 0;
        while i < self.state.players.len()
            invariant
                0 <= i <= self.table().players@.len(),
                self.ok(),
                out@.len() == i,
                forall|k: int| 0 <= k < i ==> out@[k] == (#[trigger] self.table().players@[k]).vp_spec(),
            decreases self.table().players@.len() - i,
        {
            proof {
                assert(crate::game_state::player_ok(self.state.players@[i as int], self.state.round));
            }
            out.push(self.state.players[i].vp() as i32);
            i += 1;
        }
        out
    }
}

impl GameState {
    /// In a consistent table every ledger's history is non-empty and its
    /// owned cards can be counted.
    pub proof fn lemma_counts_fit(self)
        requires
            self.wf(),
        ensures
            forall|i: int|
                0 <= i < self.players@.len() ==> (#[trigger] self.players@[i]).vp_history@.len() > 0
                    && self.players@[i].owned_total() <= usize::MAX,
    {
        assert forall|i: int| 0 <= i < self.players@.len() implies (#[trigger] self.players@[i]).vp_history@.len()
            > 0 && self.players@[i].owned_total() <= usize::MAX by {
            assert(crate::game_state::player_ok(self.players@[i], self.round));
            let f = |p: crate::player::Player| crate::game_state::cards_of(p);
            assert forall|k: int| 0 <= k < self.players@.len() implies f(
                #[trigger] self.players@[k],
            ) >= 0 by {}
            crate::game_state::lemma_player_sum_bound(self.players@, i, f);
        }
    }
}

} // verus!
