use reichtum::data_types::{Card, Color, Noble};
use reichtum::player::Player;

#[test]
fn default() {
    let p = Player::default();
    assert_eq!(p.tokens, [0, 0, 0, 0, 0, 0]);
    assert_eq!(p.owned[0].len(), 0);
    assert_eq!(p.nobles.len(), 0);
    assert_eq!(p.vp(), 0);
    assert_eq!(p.purchasing_power(true), [0, 0, 0, 0, 0]);
    assert_eq!(p.purchasing_power(false), [0, 0, 0, 0, 0]);
}

#[test]
fn can_buy() {
    let card = Card {
        level: 1,
        color: Color::White,
        vp: 1,
        cost: [1, 0, 0, 2, 0],
    };
    let mut p = Player::default();
    assert!(!p.can_buy(&card));
    p.tokens[0] = 1;
    assert!(!p.can_buy(&card));
    p.tokens[5] = 1;
    assert!(!p.can_buy(&card));
    p.tokens[1] = 1;
    assert!(!p.can_buy(&card));
    p.tokens[3] = 1;
    assert!(p.can_buy(&card));
    p.tokens[5] = 0;
    assert!(!p.can_buy(&card));
    p.tokens[3] = 4;
    assert!(p.can_buy(&card));
    p.tokens[0] = 0;
    assert!(!p.can_buy(&card));
    p.owned[0].push(1);
    assert!(p.can_buy(&card));
}

#[test]
fn reserving() {
    // Initial state.
    let mut p = Player::default();
    assert!(p.can_reserve());
    assert!(p.peek_reserved(0).is_none());
    assert!(p.pop_reserved(0).is_none());
    assert_eq!(p.buyable_reserved_cards(), Vec::<usize>::new());

    // Reserve a card.
    let card = Card {
        level: 1,
        color: Color::White,
        vp: 1,
        cost: [2, 2, 0, 0, 0],
    };
    let mut bank_gold = 3;
    p.reserve(card, &mut bank_gold);
    assert_eq!(p.tokens[5], 1);
    assert_eq!(bank_gold, 2);
    assert!(p.can_reserve());
    assert_eq!(p.peek_reserved(0).unwrap().color, Color::White);
    assert_eq!(p.buyable_reserved_cards(), Vec::<usize>::new());

    // Reserve a second card, this time with no bank gold available.
    let card = Card {
        level: 1,
        color: Color::Blue,
        vp: 1,
        cost: [0, 1, 0, 0, 0],
    };
    bank_gold = 0;
    p.reserve(card, &mut bank_gold);
    assert_eq!(p.tokens[5], 1);
    assert_eq!(bank_gold, 0);
    assert!(p.can_reserve());
    assert_eq!(p.peek_reserved(1).unwrap().color, Color::Blue);
    assert_eq!(p.buyable_reserved_cards(), vec![1]);

    // Reserve a third card.
    let card = Card {
        level: 1,
        color: Color::Green,
        vp: 1,
        cost: [0, 0, 1, 1, 0],
    };
    bank_gold = 5;
    p.reserve(card, &mut bank_gold);
    assert_eq!(p.tokens[5], 2);
    assert_eq!(bank_gold, 4);
    assert!(!p.can_reserve());
    assert_eq!(p.peek_reserved(2).unwrap().color, Color::Green);
    assert_eq!(p.buyable_reserved_cards(), vec![1, 2]);

    // Remove the second card.
    assert_eq!(p.pop_reserved(1).unwrap().color, Color::Blue);
    assert_eq!(p.tokens[5], 2);
    assert!(p.can_reserve());
    assert_eq!(p.peek_reserved(0).unwrap().color, Color::White);
    assert_eq!(p.peek_reserved(1).unwrap().color, Color::Green);
    assert!(p.peek_reserved(2).is_none());
    assert_eq!(p.buyable_reserved_cards(), vec![1]);
}

#[test]
fn reserve_at_token_cap_grants_no_gold() {
    let mut p = Player::default();
    p.tokens[0] = 10;
    let mut gold = 5;
    p.reserve(
        Card {
            level: 1,
            color: Color::Red,
            vp: 0,
            cost: [1, 0, 0, 0, 0],
        },
        &mut gold,
    );
    assert_eq!(gold, 5);
    assert_eq!(p.tokens[5], 0);
    assert_eq!(p.num_tokens(), 10);
}

#[test]
fn buy_pays_color_then_gold_and_credits_card() {
    let mut p = Player::default();
    p.owned[1].push(0);
    p.tokens = [1, 1, 0, 3, 0, 2];
    let card = Card {
        level: 2,
        color: Color::Red,
        vp: 2,
        cost: [3, 2, 0, 1, 0],
    };
    assert!(p.can_buy(&card));
    let mut bank = [0, 0, 0, 0, 0, 1];
    p.buy(card, &mut bank);
    // White: 3 due, 1 white token and 2 gold. Blue: 1 card, 1 token. Red: 1 token.
    assert_eq!(p.tokens, [0, 0, 0, 2, 0, 0]);
    assert_eq!(bank, [1, 1, 0, 1, 0, 3]);
    assert_eq!(p.owned[3], vec![2]);
    assert_eq!(p.purchasing_power(false), [0, 1, 0, 1, 0]);
    assert_eq!(p.purchasing_power(true), [0, 1, 0, 3, 0]);
    assert_eq!(p.num_owned_cards(), 2);
}

#[test]
fn best_noble_is_the_richest_qualifying_one() {
    let mut p = Player::default();
    p.owned[0] = vec![0, 0, 0];
    p.owned[2] = vec![0, 0, 0];
    let mut nobles = vec![
        Noble { vp: 3, cost: [3, 0, 0, 0, 0] },
        Noble { vp: 4, cost: [3, 0, 3, 0, 0] },
        Noble { vp: 5, cost: [0, 4, 0, 0, 0] },
        Noble { vp: 4, cost: [0, 0, 3, 0, 0] },
    ];
    assert!(p.can_acquire(&nobles[0]));
    assert!(!p.can_acquire(&nobles[2]));
    // Two qualifying nobles have 4 points; the earlier one is taken.
    assert_eq!(p.acquire_best_noble(&mut nobles), 4);
    assert_eq!(nobles.len(), 3);
    assert_eq!(p.nobles.len(), 1);
    assert_eq!(p.nobles[0].cost, [3, 0, 3, 0, 0]);
    assert_eq!(nobles[1].cost, [0, 4, 0, 0, 0]);
    assert_eq!(nobles[2].cost, [0, 0, 3, 0, 0]);

    let mut none = vec![Noble { vp: 3, cost: [0, 0, 0, 0, 4] }];
    assert_eq!(p.acquire_best_noble(&mut none), 0);
    assert_eq!(none.len(), 1);
    assert_eq!(p.nobles.len(), 1);
}

#[test]
fn vp_reads_last_history_entry() {
    let mut p = Player::default();
    p.vp_history.push((1, 3));
    p.vp_history.push((4, 7));
    assert_eq!(p.vp(), 7);
}

#[test]
fn color_indices() {
    assert_eq!(Color::try_from(0), Ok(Color::White));
    assert_eq!(Color::try_from(4), Ok(Color::Black));
    assert_eq!(Color::try_from(5), Ok(Color::Gold));
    assert_eq!(Color::try_from(6), Err(()));
    assert_eq!(Color::Red.index(), 3);
    assert_eq!(Color::from_index(1), Color::Blue);
}
