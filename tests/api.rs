use reichtum::agent::{create_agent, Agent, AnyAgent};
use reichtum::api::ReichtumAPI;
use reichtum::data_types::{Action, Card, Color, Noble};
use reichtum::game_state::GameState;

fn deck() -> Vec<Card> {
    let mut cards = Vec::new();
    for (level, count) in [(1usize, 40usize), (2, 30), (3, 20)] {
        for i in 0..count {
            let mut cost = [0u8; 5];
            cost[i % 5] = level as u8 + 1;
            cards.push(Card {
                level,
                color: Color::from_index(i % 5),
                vp: level as u8 - 1,
                cost,
            });
        }
    }
    cards
}

fn nobles() -> Vec<Noble> {
    (0..10)
        .map(|i| {
            let mut cost = [0u8; 5];
            cost[i % 5] = 3;
            Noble { vp: 3, cost }
        })
        .collect()
}

#[test]
fn test_winner_id_tie_breaker() {
    let mut state = GameState::init(2, deck(), nobles()).unwrap();

    // Player 1 (index 0): 15 VP, 15 cards
    for _ in 0..15 {
        let card = Card {
            level: 1,
            color: Color::White,
            vp: 1,
            cost: [0, 0, 0, 0, 0],
        };
        state.players[0].buy(card, &mut state.bank);
    }
    state.players[0].vp_history.push((1, 15));
    assert_eq!(state.players[0].vp(), 15);
    assert_eq!(state.players[0].num_owned_cards(), 15);

    // Player 2 (index 1): 15 VP, 5 cards (each 3 VP)
    for _ in 0..5 {
        let card = Card {
            level: 2,
            color: Color::Blue,
            vp: 3,
            cost: [0, 0, 0, 0, 0],
        };
        state.players[1].buy(card, &mut state.bank);
    }
    state.players[1].vp_history.push((1, 15));
    assert_eq!(state.players[1].vp(), 15);
    assert_eq!(state.players[1].num_owned_cards(), 5);

    // Finish the game
    state.curr_player_idx = 2; // >= num_players (2)
    assert!(state.is_finished());

    let game = ReichtumAPI::new(state, vec!["p1".to_string(), "p2".to_string()], vec![None, None]);
    // The player with fewer cards wins the tie.
    assert_eq!(game.winner_id(), Some("p2"));
}

#[test]
fn winner_only_once_finished() {
    let state = GameState::init(2, deck(), nobles()).unwrap();
    assert_eq!(state.winner(), None);
    let game = ReichtumAPI::new(state, vec!["a".to_string(), "b".to_string()], vec![None, None]);
    assert_eq!(game.winner_id(), None);
    assert_eq!(game.player_scores(), vec![0, 0]);
}

#[test]
fn human_seats_and_agent_moves() {
    let state = GameState::init(3, deck(), nobles()).unwrap();
    let seat = state.curr_player_idx;
    let mut agents: Vec<Option<AnyAgent>> = vec![None, None, None];
    agents[seat] = Some(create_agent(2));
    let ids = vec!["x".to_string(), "y".to_string(), "z".to_string()];
    let mut game = ReichtumAPI::new(state, ids, agents);
    let humans = game.human_player_idxs();
    assert_eq!(humans.len(), 2);
    assert!(!humans.contains(&seat));
    let action = game.agent_action().unwrap();
    assert!(game.state().valid_actions().contains(&action));
    assert_eq!(game.do_action(&action), Ok(false));
    assert!(game.agent_action().is_none());
    assert!(!game.is_game_over());
}

#[test]
fn agents_pick_legal_moves() {
    let state = GameState::init(2, deck(), nobles()).unwrap();
    assert!(create_agent(0).is_random());
    assert!(!create_agent(1).is_random());
    for level in 0..3 {
        let agent = create_agent(level);
        let a: Action = agent.choose_action(&state);
        assert!(state.valid_actions().contains(&a));
    }
}

#[test]
fn self_play_reaches_an_end() {
    let mut state = GameState::init(2, deck(), nobles()).unwrap();
    let agents = [create_agent(2), create_agent(1)];
    let mut done = false;
    for _ in 0..1000 {
        let a = agents[state.curr_player_idx].choose_action(&state);
        if state.take_turn(&a).unwrap() {
            done = true;
            break;
        }
    }
    assert!(done);
    assert!(state.players.iter().any(|p| p.vp() >= 15));
    assert!(state.winner().is_some());
}

#[test]
fn greedy_agent_buys_the_richest_card() {
    let mut state = GameState::init(2, deck(), nobles()).unwrap();
    state.market[0][1] = Card {
        level: 1,
        color: Color::Red,
        vp: 3,
        cost: [0, 0, 0, 0, 0],
    };
    let agent = create_agent(1);
    let a = agent.choose_action(&state);
    assert_eq!(
        a,
        Action::BuyCard(reichtum::data_types::CardLocation::Market(1, 1))
    );
}
