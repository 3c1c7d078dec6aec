use pusoy::cards::{Card, PlayedCard, Rank, Suit};
use pusoy::compare::{compare_hands, FlushPrecedence};
use pusoy::hands::{Hand, Trick, TrickType};
use pusoy::player::Player;
use pusoy::round::{Round, Ruleset, SubmitError};

fn default_suit_order() -> [Suit; 4] {
    [Suit::Clubs, Suit::Hearts, Suit::Diamonds, Suit::Spades]
}

fn default_rank_order() -> [Rank; 13] {
    [
        Rank::Three,
        Rank::Four,
        Rank::Five,
        Rank::Six,
        Rank::Seven,
        Rank::Eight,
        Rank::Nine,
        Rank::Ten,
        Rank::Jack,
        Rank::Queen,
        Rank::King,
        Rank::Ace,
        Rank::Two,
    ]
}

fn default_ruleset() -> Ruleset {
    Ruleset {
        reversals_enabled: true,
        flush_precedence: FlushPrecedence::Rank,
    }
}

fn std_card(rank: Rank, suit: Suit) -> Card {
    Card::Standard {
        deck_id: 0,
        rank,
        suit,
    }
}

fn pc(rank: Rank, suit: Suit) -> PlayedCard {
    PlayedCard::new(rank, suit, false)
}

#[test]
fn four_cards_never_form_a_hand() {
    let c = pc(Rank::Three, Suit::Clubs);
    assert_eq!(Hand::build(vec![c, c, c, c]), None);
}

#[test]
fn six_cards_never_form_a_hand() {
    let c = pc(Rank::Three, Suit::Clubs);
    assert_eq!(Hand::build(vec![c, c, c, c, c, c]), None);
}

#[test]
fn mixed_ranks_and_suits_form_no_trick() {
    let cards = vec![
        pc(Rank::Three, Suit::Clubs),
        pc(Rank::Three, Suit::Hearts),
        pc(Rank::Four, Suit::Clubs),
        pc(Rank::Four, Suit::Hearts),
        pc(Rank::Six, Suit::Spades),
    ];
    assert_eq!(Hand::build(cards), None);
}

#[test]
fn ace_low_wraparound_is_no_straight() {
    // Two -> Three crosses the end of the fixed chain: not a straight.
    let cards = vec![
        pc(Rank::Ace, Suit::Clubs),
        pc(Rank::Two, Suit::Hearts),
        pc(Rank::Three, Suit::Clubs),
        pc(Rank::Four, Suit::Hearts),
        pc(Rank::Five, Suit::Spades),
    ];
    assert_eq!(Hand::build(cards), None);
}

#[test]
fn classification_is_order_insensitive() {
    let shuffled = vec![
        pc(Rank::Seven, Suit::Hearts),
        pc(Rank::Five, Suit::Clubs),
        pc(Rank::Three, Suit::Clubs),
        pc(Rank::Six, Suit::Hearts),
        pc(Rank::Four, Suit::Clubs),
    ];
    let sorted = vec![
        pc(Rank::Three, Suit::Clubs),
        pc(Rank::Four, Suit::Clubs),
        pc(Rank::Five, Suit::Clubs),
        pc(Rank::Six, Suit::Hearts),
        pc(Rank::Seven, Suit::Hearts),
    ];
    assert_eq!(Hand::build(shuffled), Hand::build(sorted));
}

#[test]
fn pair_order_does_not_affect_acceptance() {
    let a = pc(Rank::Three, Suit::Clubs);
    let b = pc(Rank::Three, Suit::Hearts);
    let h1 = Hand::build(vec![a, b]).unwrap();
    let h2 = Hand::build(vec![b, a]).unwrap();
    assert_eq!(h1, Hand::Pair(a, b));
    assert_eq!(h2, Hand::Pair(b, a));
}

#[test]
fn a_hand_never_beats_itself() {
    let single = Hand::Single(pc(Rank::Six, Suit::Clubs));
    assert!(!compare_hands(
        single,
        single,
        FlushPrecedence::Rank,
        default_suit_order(),
        default_rank_order()
    ));
}

#[test]
fn mismatched_shapes_are_never_high_enough() {
    let single = Hand::Single(pc(Rank::Two, Suit::Spades));
    let pair = Hand::Pair(pc(Rank::Three, Suit::Clubs), pc(Rank::Three, Suit::Hearts));
    assert!(!compare_hands(
        single,
        pair,
        FlushPrecedence::Rank,
        default_suit_order(),
        default_rank_order()
    ));
    assert!(!compare_hands(
        pair,
        single,
        FlushPrecedence::Rank,
        default_suit_order(),
        default_rank_order()
    ));
}

#[test]
fn a_pass_never_beats_and_is_always_beaten() {
    let single = Hand::Single(pc(Rank::Three, Suit::Clubs));
    assert!(!compare_hands(
        single,
        Hand::Pass,
        FlushPrecedence::Rank,
        default_suit_order(),
        default_rank_order()
    ));
    assert!(compare_hands(
        Hand::Pass,
        single,
        FlushPrecedence::Rank,
        default_suit_order(),
        default_rank_order()
    ));
}

#[test]
fn stronger_trick_type_beats_weaker() {
    let straight = Hand::build(vec![
        pc(Rank::Three, Suit::Clubs),
        pc(Rank::Four, Suit::Clubs),
        pc(Rank::Five, Suit::Clubs),
        pc(Rank::Six, Suit::Hearts),
        pc(Rank::Seven, Suit::Hearts),
    ])
    .unwrap();
    let full_house = Hand::build(vec![
        pc(Rank::Three, Suit::Clubs),
        pc(Rank::Three, Suit::Hearts),
        pc(Rank::Three, Suit::Diamonds),
        pc(Rank::Four, Suit::Clubs),
        pc(Rank::Four, Suit::Hearts),
    ])
    .unwrap();
    assert!(compare_hands(
        straight,
        full_house,
        FlushPrecedence::Rank,
        default_suit_order(),
        default_rank_order()
    ));
    assert!(!compare_hands(
        full_house,
        straight,
        FlushPrecedence::Rank,
        default_suit_order(),
        default_rank_order()
    ));
}

#[test]
fn equal_trick_types_compare_by_highest_card() {
    let low_straight = Hand::build(vec![
        pc(Rank::Three, Suit::Clubs),
        pc(Rank::Four, Suit::Clubs),
        pc(Rank::Five, Suit::Clubs),
        pc(Rank::Six, Suit::Hearts),
        pc(Rank::Seven, Suit::Hearts),
    ])
    .unwrap();
    let high_straight = Hand::build(vec![
        pc(Rank::Four, Suit::Clubs),
        pc(Rank::Five, Suit::Clubs),
        pc(Rank::Six, Suit::Clubs),
        pc(Rank::Seven, Suit::Clubs),
        pc(Rank::Eight, Suit::Hearts),
    ])
    .unwrap();
    assert!(compare_hands(
        low_straight,
        high_straight,
        FlushPrecedence::Rank,
        default_suit_order(),
        default_rank_order()
    ));
    assert!(!compare_hands(
        high_straight,
        low_straight,
        FlushPrecedence::Rank,
        default_suit_order(),
        default_rank_order()
    ));
}

fn clubs_flush() -> Hand {
    Hand::build(vec![
        pc(Rank::Three, Suit::Clubs),
        pc(Rank::Four, Suit::Clubs),
        pc(Rank::Five, Suit::Clubs),
        pc(Rank::Six, Suit::Clubs),
        pc(Rank::Eight, Suit::Clubs),
    ])
    .unwrap()
}

fn hearts_flush() -> Hand {
    // two threes from different decks keep this a plain flush, topping out
    // at the Seven
    Hand::build(vec![
        pc(Rank::Three, Suit::Hearts),
        pc(Rank::Three, Suit::Hearts),
        pc(Rank::Four, Suit::Hearts),
        pc(Rank::Five, Suit::Hearts),
        pc(Rank::Seven, Suit::Hearts),
    ])
    .unwrap()
}

#[test]
fn flush_precedence_rank_compares_flushes_by_highest_card() {
    // clubs flush tops out at Eight, hearts flush at Seven
    assert!(compare_hands(
        hearts_flush(),
        clubs_flush(),
        FlushPrecedence::Rank,
        default_suit_order(),
        default_rank_order()
    ));
    assert!(!compare_hands(
        clubs_flush(),
        hearts_flush(),
        FlushPrecedence::Rank,
        default_suit_order(),
        default_rank_order()
    ));
}

#[test]
fn flush_precedence_suit_compares_flushes_by_suit_first() {
    // hearts outrank clubs in the default suit order, whatever the top card
    assert!(compare_hands(
        clubs_flush(),
        hearts_flush(),
        FlushPrecedence::Suit,
        default_suit_order(),
        default_rank_order()
    ));
    assert!(!compare_hands(
        hearts_flush(),
        clubs_flush(),
        FlushPrecedence::Suit,
        default_suit_order(),
        default_rank_order()
    ));
}

#[test]
fn rejection_is_idempotent() {
    let a_cards = vec![
        std_card(Rank::Three, Suit::Clubs),
        std_card(Rank::Six, Suit::Clubs),
    ];
    let b_cards = vec![std_card(Rank::Four, Suit::Clubs)];
    let players = vec![
        Player::new("a".to_string(), a_cards),
        Player::new("b".to_string(), b_cards),
    ];
    let round = Round::new(
        players,
        None,
        None,
        None,
        default_suit_order(),
        default_rank_order(),
        default_ruleset(),
    );

    let first = round.submit_move("a", vec![]);
    let second = round.submit_move("a", vec![]);
    assert_eq!(first.err().unwrap(), SubmitError::FirstRoundPass);
    assert_eq!(second.err().unwrap(), SubmitError::FirstRoundPass);
    // the round itself is untouched by the rejected submissions
    assert_eq!(round.get_next_player(), Some("a".to_string()));
    assert_eq!(round.get_last_move(), None);
}

#[test]
fn accepted_single_round_trip() {
    let a_cards = vec![
        std_card(Rank::Three, Suit::Clubs),
        std_card(Rank::Six, Suit::Clubs),
    ];
    let b_cards = vec![std_card(Rank::Four, Suit::Clubs)];
    let players = vec![
        Player::new("a".to_string(), a_cards),
        Player::new("b".to_string(), b_cards),
    ];
    let round = Round::new(
        players,
        None,
        None,
        None,
        default_suit_order(),
        default_rank_order(),
        default_ruleset(),
    );
    assert_eq!(round.get_next_player(), Some("a".to_string()));

    let three_of_clubs = pc(Rank::Three, Suit::Clubs);
    let new_round = round.submit_move("a", vec![three_of_clubs]).unwrap();

    assert_eq!(new_round.get_last_move(), Some(Hand::Single(three_of_clubs)));
    assert_eq!(new_round.get_last_player(), Some("a".to_string()));
    assert_eq!(new_round.get_next_player(), Some("b".to_string()));
    // the original round is unchanged
    assert_eq!(round.get_last_move(), None);
    assert_eq!(round.get_player("a").unwrap().get_hand().len(), 2);
}

#[test]
fn a_joker_is_played_by_holding_a_joker() {
    let a_cards = vec![std_card(Rank::Three, Suit::Clubs), Card::Joker { deck_id: 0 }];
    let player_a = Player::new("a".to_string(), a_cards);

    let joker_three = PlayedCard::new(Rank::Three, Suit::Spades, true);
    let after = player_a.play_move(vec![joker_three]).unwrap();
    assert_eq!(after.get_hand(), vec![std_card(Rank::Three, Suit::Clubs)]);

    let plain_three_of_spades = PlayedCard::new(Rank::Three, Suit::Spades, false);
    assert!(player_a.play_move(vec![plain_three_of_spades]).is_none());
}

#[test]
fn play_move_removes_each_card_once() {
    let hand = vec![
        std_card(Rank::Three, Suit::Clubs),
        std_card(Rank::Three, Suit::Clubs),
        std_card(Rank::Six, Suit::Clubs),
    ];
    let player = Player::new("a".to_string(), hand);

    let pair = vec![pc(Rank::Three, Suit::Clubs), pc(Rank::Three, Suit::Clubs)];
    let after = player.play_move(pair).unwrap();
    assert_eq!(after.get_hand(), vec![std_card(Rank::Six, Suit::Clubs)]);

    let triple = vec![
        pc(Rank::Three, Suit::Clubs),
        pc(Rank::Three, Suit::Clubs),
        pc(Rank::Three, Suit::Clubs),
    ];
    assert!(player.play_move(triple).is_none());
}

#[test]
fn has_card_ignores_deck_id() {
    let hand = vec![Card::Standard {
        deck_id: 3,
        rank: Rank::Three,
        suit: Suit::Clubs,
    }];
    let player = Player::new("a".to_string(), hand);
    assert!(player.has_card(std_card(Rank::Three, Suit::Clubs)));
    assert!(!player.has_card(std_card(Rank::Four, Suit::Clubs)));
}

#[test]
fn get_player_returns_none_for_unknown_id() {
    let players = vec![Player::new(
        "a".to_string(),
        vec![std_card(Rank::Three, Suit::Clubs)],
    )];
    let round = Round::new(
        players,
        Some("a".to_string()),
        None,
        None,
        default_suit_order(),
        default_rank_order(),
        default_ruleset(),
    );
    assert!(round.get_player("z").is_none());
    assert!(round.get_player("a").is_some());
}

#[test]
fn five_of_a_kind_does_not_reverse_orders() {
    let a_cards = vec![
        std_card(Rank::Three, Suit::Clubs),
        std_card(Rank::Three, Suit::Clubs),
        std_card(Rank::Three, Suit::Clubs),
        std_card(Rank::Three, Suit::Clubs),
        std_card(Rank::Three, Suit::Clubs),
    ];
    let b_cards = vec![std_card(Rank::Four, Suit::Clubs)];
    let players = vec![
        Player::new("a".to_string(), a_cards),
        Player::new("b".to_string(), b_cards),
    ];
    let round = Round::new(
        players,
        Some("a".to_string()),
        Some(Hand::Pass),
        Some("b".to_string()),
        default_suit_order(),
        default_rank_order(),
        default_ruleset(),
    );
    let played = vec![
        pc(Rank::Three, Suit::Clubs),
        pc(Rank::Three, Suit::Clubs),
        pc(Rank::Three, Suit::Clubs),
        pc(Rank::Three, Suit::Clubs),
        pc(Rank::Three, Suit::Clubs),
    ];
    let new_round = round.submit_move("a", played).unwrap();
    assert_eq!(new_round.get_suit_order(), default_suit_order());
    assert_eq!(new_round.get_rank_order(), default_rank_order());
}

#[test]
fn trick_cards_come_back_in_canonical_order() {
    let cards = vec![
        pc(Rank::Five, Suit::Spades),
        pc(Rank::Five, Suit::Clubs),
        pc(Rank::Five, Suit::Hearts),
        pc(Rank::Three, Suit::Clubs),
        pc(Rank::Three, Suit::Hearts),
    ];
    let hand = Hand::build(cards).unwrap();
    let expected = Hand::FiveCardTrick(Trick {
        trick_type: TrickType::FullHouse,
        cards: [
            pc(Rank::Three, Suit::Clubs),
            pc(Rank::Three, Suit::Hearts),
            pc(Rank::Five, Suit::Clubs),
            pc(Rank::Five, Suit::Hearts),
            pc(Rank::Five, Suit::Spades),
        ],
    });
    assert_eq!(hand, expected);
}
