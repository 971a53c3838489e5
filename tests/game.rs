use reichtum::data_types::{Action, Card, CardLocation, Color, Noble};
use reichtum::game_state::{GameState, IllegalAction};
use reichtum::player::Player;
use reichtum::setup::{cards_by_level, SetupError};

fn gem(i: usize) -> Color {
    Color::from_index(i % 5)
}

/// 40 cards of level 1, 30 of level 2 and 20 of level 3, none of them free.
fn deck() -> Vec<Card> {
    let mut cards = Vec::new();
    for (level, count) in [(1usize, 40usize), (2, 30), (3, 20)] {
        for i in 0..count {
            let mut cost = [0u8; 5];
            cost[i % 5] = level as u8 + 1;
            cost[(i + 1) % 5] = 1;
            cards.push(Card {
                level,
                color: gem(i),
                vp: if level == 1 { 0 } else { level as u8 - 1 },
                cost,
            });
        }
    }
    cards
}

fn noble_deck() -> Vec<Noble> {
    (0..10)
        .map(|i| {
            let mut cost = [0u8; 5];
            cost[i % 5] = 4;
            cost[(i + 2) % 5] = 4;
            Noble { vp: 3, cost }
        })
        .collect()
}

fn table(num_players: usize) -> GameState {
    GameState::init(num_players, deck(), noble_deck()).unwrap()
}

fn card(color: Color, vp: u8, cost: [u8; 5]) -> Card {
    Card {
        level: 1,
        color,
        vp,
        cost,
    }
}

#[test]
fn init() {
    let gs = table(2);
    assert_eq!(gs.piles[0].len(), 36);
    assert_eq!(gs.piles[1].len(), 26);
    assert_eq!(gs.piles[2].len(), 16);
    assert_eq!(gs.market[0].len(), 4);
    assert_eq!(gs.market[1].len(), 4);
    assert_eq!(gs.market[2].len(), 4);
    assert_eq!(gs.nobles.len(), 3);
    assert_eq!(gs.bank, [4, 4, 4, 4, 4, 5]);
    assert_eq!(gs.round(), 1);
    assert!(gs.curr_player_idx < 2);
    assert!(!gs.is_finished());
}

#[test]
fn init_bank_by_player_count() {
    assert_eq!(table(3).bank, [5, 5, 5, 5, 5, 5]);
    assert_eq!(table(4).bank, [7, 7, 7, 7, 7, 5]);
    assert_eq!(table(9).nobles.len(), 10);
}

#[test]
fn init_rejects_bad_input() {
    assert!(matches!(
        GameState::init(1, deck(), noble_deck()),
        Err(SetupError::InvalidPlayerCount)
    ));
    assert!(matches!(
        GameState::init(10, deck(), noble_deck()),
        Err(SetupError::InvalidPlayerCount)
    ));
    let mut gold = deck();
    gold[0].color = Color::Gold;
    assert!(matches!(
        GameState::init(2, gold, noble_deck()),
        Err(SetupError::InvalidCard)
    ));
    let short: Vec<Card> = deck().into_iter().filter(|c| c.level != 3).collect();
    assert!(matches!(
        GameState::init(2, short, noble_deck()),
        Err(SetupError::NotEnoughCards)
    ));
    let mut rich = deck();
    for c in rich.iter_mut() {
        c.vp = 5;
    }
    assert!(matches!(
        GameState::init(2, rich, noble_deck()),
        Err(SetupError::TooLarge)
    ));
}

#[test]
fn cards_split_by_level_in_order() {
    let levels = cards_by_level(&deck());
    assert_eq!(levels[0].len(), 40);
    assert_eq!(levels[1].len(), 30);
    assert_eq!(levels[2].len(), 20);
    assert_eq!(levels[1][0].color, Color::White);
    assert_eq!(levels[1][1].color, Color::Blue);
}

#[test]
fn game_turns() {
    let mut gs = table(2);
    let starting_idx = gs.curr_player_idx;
    assert!(!gs
        .take_turn(&Action::TakeDifferentColorTokens(vec![
            Color::White,
            Color::Blue,
            Color::Green
        ]))
        .unwrap());
    assert_eq!(gs.players[starting_idx].num_tokens(), 3);
    assert_eq!(gs.bank, [3, 3, 3, 4, 4, 5]);
    let other_idx = gs.curr_player_idx;
    assert_ne!(other_idx, starting_idx);
    assert!(!gs
        .take_turn(&Action::TakeSameColorTokens(Color::Red))
        .unwrap());
    assert_eq!(gs.players[other_idx].num_tokens(), 2);
    assert_eq!(gs.curr_player_idx, starting_idx);
}

#[test]
fn round_advances_after_last_seat() {
    let mut gs = table(2);
    gs.curr_player_idx = 0;
    gs.take_turn(&Action::TakeSameColorTokens(Color::Red)).unwrap();
    assert_eq!(gs.curr_player_idx, 1);
    assert_eq!(gs.round(), 1);
    gs.take_turn(&Action::TakeSameColorTokens(Color::Black)).unwrap();
    assert_eq!(gs.curr_player_idx, 0);
    assert_eq!(gs.round(), 2);
}

#[test]
fn initial_valid_actions() {
    let gs = table(2);
    assert_eq!(
        gs.valid_actions(),
        vec![
            Action::ReserveCard(CardLocation::Market(1, 0)),
            Action::ReserveCard(CardLocation::Market(1, 1)),
            Action::ReserveCard(CardLocation::Market(1, 2)),
            Action::ReserveCard(CardLocation::Market(1, 3)),
            Action::ReserveCard(CardLocation::Pile(1)),
            Action::ReserveCard(CardLocation::Market(2, 0)),
            Action::ReserveCard(CardLocation::Market(2, 1)),
            Action::ReserveCard(CardLocation::Market(2, 2)),
            Action::ReserveCard(CardLocation::Market(2, 3)),
            Action::ReserveCard(CardLocation::Pile(2)),
            Action::ReserveCard(CardLocation::Market(3, 0)),
            Action::ReserveCard(CardLocation::Market(3, 1)),
            Action::ReserveCard(CardLocation::Market(3, 2)),
            Action::ReserveCard(CardLocation::Market(3, 3)),
            Action::ReserveCard(CardLocation::Pile(3)),
            Action::TakeSameColorTokens(Color::White),
            Action::TakeSameColorTokens(Color::Blue),
            Action::TakeSameColorTokens(Color::Green),
            Action::TakeSameColorTokens(Color::Red),
            Action::TakeSameColorTokens(Color::Black),
            Action::TakeDifferentColorTokens(vec![Color::White, Color::Blue, Color::Green]),
            Action::TakeDifferentColorTokens(vec![Color::White, Color::Blue, Color::Red]),
            Action::TakeDifferentColorTokens(vec![Color::White, Color::Blue, Color::Black]),
            Action::TakeDifferentColorTokens(vec![Color::White, Color::Green, Color::Red]),
            Action::TakeDifferentColorTokens(vec![Color::White, Color::Green, Color::Black]),
            Action::TakeDifferentColorTokens(vec![Color::White, Color::Red, Color::Black]),
            Action::TakeDifferentColorTokens(vec![Color::Blue, Color::Green, Color::Red]),
            Action::TakeDifferentColorTokens(vec![Color::Blue, Color::Green, Color::Black]),
            Action::TakeDifferentColorTokens(vec![Color::Blue, Color::Red, Color::Black]),
            Action::TakeDifferentColorTokens(vec![Color::Green, Color::Red, Color::Black])
        ]
    );
}

#[test]
fn no_valid_actions() {
    let mut gs = table(2);
    // Remove all the cards from the market, so we can't buy any.
    gs.market[0].clear();
    gs.market[1].clear();
    gs.market[2].clear();

    {
        let player = &mut gs.players[gs.curr_player_idx];
        // Fill the player's token quota, so they can't take any more.
        player.tokens[0] = 10;
        // Fill the player's reserve, so they can't reserve any more.
        player.reserve(
            Card {
                level: 1,
                color: Color::White,
                vp: 0,
                cost: [1, 1, 1, 1, 0],
            },
            &mut gs.bank[5],
        );
        player.reserve(
            Card {
                level: 1,
                color: Color::Green,
                vp: 0,
                cost: [1, 1, 1, 1, 0],
            },
            &mut gs.bank[5],
        );
        player.reserve(
            Card {
                level: 1,
                color: Color::Blue,
                vp: 0,
                cost: [1, 1, 1, 1, 0],
            },
            &mut gs.bank[5],
        );
    }
    assert_eq!(
        gs.valid_actions(),
        vec![Action::TakeDifferentColorTokens(vec![])]
    );

    // If we have 9 tokens, we can take a single token of any available color.
    gs.players[gs.curr_player_idx].tokens[0] = 9;
    assert_eq!(
        gs.valid_actions(),
        vec![
            Action::TakeDifferentColorTokens(vec![Color::White]),
            Action::TakeDifferentColorTokens(vec![Color::Blue]),
            Action::TakeDifferentColorTokens(vec![Color::Green]),
            Action::TakeDifferentColorTokens(vec![Color::Red]),
            Action::TakeDifferentColorTokens(vec![Color::Black])
        ]
    );

    // Ensure we omit colors that have no tokens available in the bank.
    gs.bank[0] = 0;
    gs.bank[1] = 0;
    assert_eq!(
        gs.valid_actions(),
        vec![
            Action::TakeDifferentColorTokens(vec![Color::Green]),
            Action::TakeDifferentColorTokens(vec![Color::Red]),
            Action::TakeDifferentColorTokens(vec![Color::Black])
        ]
    );
}

#[test]
fn two_colors_when_three_impossible() {
    let mut gs = table(2);
    gs.market[0].clear();
    gs.market[1].clear();
    gs.market[2].clear();
    gs.bank = [0, 0, 2, 0, 3, 5];
    assert_eq!(
        gs.valid_actions(),
        vec![
            Action::ReserveCard(CardLocation::Pile(1)),
            Action::ReserveCard(CardLocation::Pile(2)),
            Action::ReserveCard(CardLocation::Pile(3)),
            Action::TakeDifferentColorTokens(vec![Color::Green, Color::Black]),
        ]
    );
}

#[test]
fn valid_actions_are_accepted() {
    let gs = table(3);
    for a in gs.valid_actions() {
        let mut copy = table(3);
        copy.piles = gs.piles.clone();
        copy.market = gs.market.clone();
        copy.nobles = gs.nobles.clone();
        copy.curr_player_idx = gs.curr_player_idx;
        assert!(copy.take_turn(&a).is_ok(), "{:?}", a);
    }
}

#[test]
fn take_two_with_short_stock_is_refused() {
    let mut gs = table(2);
    gs.bank[3] = 3;
    let seat = gs.curr_player_idx;
    assert_eq!(
        gs.take_turn(&Action::TakeSameColorTokens(Color::Red)),
        Err(IllegalAction::BankShort)
    );
    assert_eq!(gs.bank, [4, 4, 4, 3, 4, 5]);
    assert_eq!(gs.players[seat].tokens, [0, 0, 0, 0, 0, 0]);
    assert_eq!(gs.curr_player_idx, seat);
}

#[test]
fn illegal_actions_name_their_reason() {
    let mut gs = table(2);
    let take = |cs: Vec<Color>| Action::TakeDifferentColorTokens(cs);
    assert_eq!(
        gs.take_turn(&take(vec![Color::White, Color::Blue, Color::Green, Color::Red])),
        Err(IllegalAction::TooManyTokens)
    );
    assert_eq!(
        gs.take_turn(&take(vec![Color::Gold])),
        Err(IllegalAction::GoldToken)
    );
    assert_eq!(
        gs.take_turn(&Action::TakeSameColorTokens(Color::Gold)),
        Err(IllegalAction::GoldToken)
    );
    assert_eq!(
        gs.take_turn(&take(vec![Color::Red, Color::Red])),
        Err(IllegalAction::RepeatedColor)
    );
    gs.bank[0] = 0;
    assert_eq!(
        gs.take_turn(&take(vec![Color::Blue, Color::White])),
        Err(IllegalAction::BankShort)
    );
    gs.bank[0] = 4;
    gs.players[gs.curr_player_idx].tokens[1] = 9;
    assert_eq!(
        gs.take_turn(&take(vec![Color::White, Color::Green, Color::Red])),
        Err(IllegalAction::TokenCap)
    );
    assert_eq!(
        gs.take_turn(&Action::TakeSameColorTokens(Color::White)),
        Err(IllegalAction::TokenCap)
    );
    gs.players[gs.curr_player_idx].tokens[1] = 0;
    assert_eq!(
        gs.take_turn(&Action::ReserveCard(CardLocation::Reserve(0))),
        Err(IllegalAction::AlreadyReserved)
    );
    assert_eq!(
        gs.take_turn(&Action::ReserveCard(CardLocation::Pile(4))),
        Err(IllegalAction::InvalidPileLevel)
    );
    assert_eq!(
        gs.take_turn(&Action::ReserveCard(CardLocation::Market(0, 0))),
        Err(IllegalAction::InvalidMarketLevel)
    );
    assert_eq!(
        gs.take_turn(&Action::ReserveCard(CardLocation::Market(1, 4))),
        Err(IllegalAction::InvalidMarketIndex)
    );
    assert_eq!(
        gs.take_turn(&Action::BuyCard(CardLocation::Pile(1))),
        Err(IllegalAction::PilePeek)
    );
    assert_eq!(
        gs.take_turn(&Action::BuyCard(CardLocation::Reserve(0))),
        Err(IllegalAction::InvalidReserveIndex)
    );
    assert_eq!(
        gs.take_turn(&Action::BuyCard(CardLocation::Market(1, 0))),
        Err(IllegalAction::CannotAfford)
    );
    gs.piles[0].clear();
    assert_eq!(
        gs.take_turn(&Action::ReserveCard(CardLocation::Pile(1))),
        Err(IllegalAction::NoCardsLeft)
    );
    let seat = gs.curr_player_idx;
    for _ in 0..3 {
        gs.curr_player_idx = seat;
        gs.take_turn(&Action::ReserveCard(CardLocation::Pile(2))).unwrap();
    }
    gs.curr_player_idx = seat;
    assert_eq!(
        gs.take_turn(&Action::ReserveCard(CardLocation::Pile(2))),
        Err(IllegalAction::ReserveFull)
    );
    assert_eq!(IllegalAction::ReserveFull.reason(), "At most 3 cards can be reserved");
}

#[test]
fn reserving_from_market_refills_slot_and_grants_gold() {
    let mut gs = table(2);
    let seat = gs.curr_player_idx;
    let top = *gs.piles[1].last().unwrap();
    let taken = gs.market[1][2];
    gs.take_turn(&Action::ReserveCard(CardLocation::Market(2, 2))).unwrap();
    assert_eq!(gs.market[1].len(), 4);
    assert_eq!(gs.market[1][2], top);
    assert_eq!(gs.piles[1].len(), 25);
    assert_eq!(gs.players[seat].peek_reserved(0), Some(&taken));
    assert_eq!(gs.players[seat].tokens[5], 1);
    assert_eq!(gs.bank[5], 4);
}

#[test]
fn buying_with_empty_pile_shrinks_row() {
    let mut gs = table(2);
    let seat = gs.curr_player_idx;
    gs.piles[0].clear();
    let bought = gs.market[0][1];
    gs.players[seat].tokens = [2, 2, 2, 2, 2, 0];
    gs.bank = [2, 2, 2, 2, 2, 5];
    gs.take_turn(&Action::BuyCard(CardLocation::Market(1, 1))).unwrap();
    assert_eq!(gs.market[0].len(), 3);
    assert_eq!(gs.players[seat].owned[bought.color.index()], vec![bought.vp]);
    assert_eq!(gs.players[seat].num_tokens(), 10 - (bought.cost.iter().sum::<u8>()));
}

#[test]
fn game_ends_at_close_of_round() {
    let mut gs = table(2);
    gs.curr_player_idx = 0;
    // Seat 0 has 14 points and can afford a free 1-point card.
    gs.players[0].owned[0] = vec![4, 5, 5];
    gs.players[0].vp_history.push((1, 14));
    gs.market[0][0] = card(Color::White, 1, [0, 0, 0, 0, 0]);
    assert!(!gs.take_turn(&Action::BuyCard(CardLocation::Market(1, 0))).unwrap());
    assert_eq!(gs.players[0].vp_history.last(), Some(&(1, 15)));
    assert_eq!(gs.players[0].vp(), 15);
    // The game goes on until the round is over.
    assert!(!gs.is_finished());
    assert_eq!(gs.curr_player_idx, 1);
    assert!(gs.take_turn(&Action::TakeSameColorTokens(Color::Red)).unwrap());
    assert!(gs.is_finished());
    assert_eq!(gs.curr_player_idx, 2);
    assert_eq!(gs.winner(), Some(0));
}

#[test]
fn noble_visits_after_purchase() {
    let mut gs = table(2);
    gs.curr_player_idx = 0;
    gs.nobles = vec![
        Noble { vp: 3, cost: [1, 0, 0, 0, 0] },
        Noble { vp: 3, cost: [2, 0, 0, 0, 0] },
    ];
    gs.market[0][0] = card(Color::White, 1, [0, 0, 0, 0, 0]);
    gs.take_turn(&Action::BuyCard(CardLocation::Market(1, 0))).unwrap();
    assert_eq!(gs.players[0].nobles.len(), 1);
    assert_eq!(gs.nobles.len(), 1);
    assert_eq!(gs.players[0].vp(), 4);
    assert_eq!(gs.players[0].vp_history, vec![(0, 0), (1, 4)]);
}

#[test]
fn tokens_only_move_between_bank_and_players() {
    let mut gs = table(4);
    for _ in 0..12 {
        let actions = gs.valid_actions();
        let a = actions.last().unwrap().clone();
        gs.take_turn(&a).unwrap();
        for c in 0..6 {
            let held: u32 = gs.players.iter().map(|p: &Player| p.tokens[c] as u32).sum();
            let expected = if c == 5 { 5 } else { 7 };
            assert_eq!(gs.bank[c] as u32 + held, expected);
        }
    }
}

#[test]
fn history_grows_only_on_gain() {
    let mut gs = table(2);
    gs.curr_player_idx = 0;
    gs.take_turn(&Action::TakeSameColorTokens(Color::Blue)).unwrap();
    assert_eq!(gs.players[0].vp_history, vec![(0, 0)]);
    gs.take_turn(&Action::ReserveCard(CardLocation::Pile(3))).unwrap();
    assert_eq!(gs.players[1].vp_history, vec![(0, 0)]);
    gs.market[0][2] = card(Color::Blue, 2, [0, 2, 0, 0, 0]);
    gs.take_turn(&Action::BuyCard(CardLocation::Market(1, 2))).unwrap();
    assert_eq!(gs.players[0].vp_history, vec![(0, 0), (2, 2)]);
    assert_eq!(gs.players[0].tokens, [0, 0, 0, 0, 0, 0]);
    assert_eq!(gs.bank[1], 4);
}
