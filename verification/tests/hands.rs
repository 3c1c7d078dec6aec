use pusoy::cards::{PlayedCard, Rank, Suit};
use pusoy::hands::{Hand, Trick, TrickType};

#[test]
fn an_empty_move_is_a_pass() {
    let hand = Hand::build(vec![]);

    assert_eq!(hand.unwrap(), Hand::Pass);
}

#[test]
fn a_single_card_is_a_single() {
    let card = PlayedCard::new(Rank::Three, Suit::Clubs, false);

    let cards = vec![card];
    let hand = Hand::build(cards);

    assert_eq!(hand.unwrap(), Hand::Single(card));
}

#[test]
fn a_pair_of_same_rank_cards_is_a_pair() {
    let played_three_of_clubs = PlayedCard::new(Rank::Three, Suit::Clubs, false);
    let played_three_of_hearts = PlayedCard::new(Rank::Three, Suit::Hearts, false);

    let cards = vec![played_three_of_clubs, played_three_of_hearts];
    let hand = Hand::build(cards);

    assert_eq!(
        hand.unwrap(),
        Hand::Pair(played_three_of_clubs, played_three_of_hearts)
    );
}

#[test]
fn a_pair_of_different_rank_cards_is_invalid() {
    let played_three_of_clubs = PlayedCard::new(Rank::Three, Suit::Clubs, false);
    let played_four_of_hearts = PlayedCard::new(Rank::Four, Suit::Hearts, false);

    let cards = vec![played_three_of_clubs, played_four_of_hearts];
    let hand = Hand::build(cards);

    assert_eq!(hand, None);
}

#[test]
fn three_cards_of_same_rank_is_a_prial() {
    let played_three_of_clubs = PlayedCard::new(Rank::Three, Suit::Clubs, false);
    let played_three_of_hearts = PlayedCard::new(Rank::Three, Suit::Hearts, false);
    let played_three_of_diamonds = PlayedCard::new(Rank::Three, Suit::Diamonds, false);

    let cards = vec![
        played_three_of_clubs,
        played_three_of_hearts,
        played_three_of_diamonds,
    ];

    let hand = Hand::build(cards);

    assert_eq!(
        hand.unwrap(),
        Hand::Prial(
            played_three_of_clubs,
            played_three_of_hearts,
            played_three_of_diamonds
        )
    );
}

#[test]
fn three_cards_of_different_rank_is_a_invalid() {
    let played_three_of_clubs = PlayedCard::new(Rank::Three, Suit::Clubs, false);
    let played_four_of_hearts = PlayedCard::new(Rank::Four, Suit::Hearts, false);
    let played_three_of_diamonds = PlayedCard::new(Rank::Three, Suit::Diamonds, false);

    let cards = vec![
        played_three_of_clubs,
        played_four_of_hearts,
        played_three_of_diamonds,
    ];

    let hand = Hand::build(cards);

    assert_eq!(hand, None);
}

#[test]
fn five_of_a_kind_is_five_of_a_kind() {
    let played_three_of_clubs = PlayedCard::new(Rank::Three, Suit::Clubs, false);

    let cards = vec![
        played_three_of_clubs,
        played_three_of_clubs,
        played_three_of_clubs,
        played_three_of_clubs,
        played_three_of_clubs,
    ];

    let hand = Hand::build(cards);
    let expected_cards = [
        played_three_of_clubs,
        played_three_of_clubs,
        played_three_of_clubs,
        played_three_of_clubs,
        played_three_of_clubs,
    ];

    assert_eq!(
        hand.unwrap(),
        Hand::FiveCardTrick(Trick {
            trick_type: TrickType::FiveOfAKind,
            cards: expected_cards,
        })
    );
}

#[test]
fn four_of_a_kind_is_four_of_a_kind() {
    let played_three_of_clubs = PlayedCard::new(Rank::Three, Suit::Clubs, false);
    let played_four_of_clubs = PlayedCard::new(Rank::Four, Suit::Clubs, false);

    let cards = vec![
        played_three_of_clubs,
        played_three_of_clubs,
        played_three_of_clubs,
        played_three_of_clubs,
        played_four_of_clubs,
    ];

    let hand = Hand::build(cards);
    let expected_cards = [
        played_three_of_clubs,
        played_three_of_clubs,
        played_three_of_clubs,
        played_three_of_clubs,
        played_four_of_clubs,
    ];

    assert_eq!(
        hand.unwrap(),
        Hand::FiveCardTrick(Trick {
            trick_type: TrickType::FourOfAKind,
            cards: expected_cards,
        })
    );
}

#[test]
fn full_house_is_a_full_house() {
    let played_three_of_clubs = PlayedCard::new(Rank::Three, Suit::Clubs, false);
    let played_four_of_clubs = PlayedCard::new(Rank::Four, Suit::Clubs, false);

    let cards = vec![
        played_three_of_clubs,
        played_three_of_clubs,
        played_three_of_clubs,
        played_four_of_clubs,
        played_four_of_clubs,
    ];

    let hand = Hand::build(cards);
    let expected_cards = [
        played_three_of_clubs,
        played_three_of_clubs,
        played_three_of_clubs,
        played_four_of_clubs,
        played_four_of_clubs,
    ];

    assert_eq!(
        hand.unwrap(),
        Hand::FiveCardTrick(Trick {
            trick_type: TrickType::FullHouse,
            cards: expected_cards,
        })
    );
}

#[test]
fn flush_is_a_flush() {
    let played_three_of_clubs = PlayedCard::new(Rank::Three, Suit::Clubs, false);
    let played_four_of_clubs = PlayedCard::new(Rank::Four, Suit::Clubs, false);
    let played_five_of_clubs = PlayedCard::new(Rank::Five, Suit::Clubs, false);

    let cards = vec![
        played_five_of_clubs,
        played_three_of_clubs,
        played_three_of_clubs,
        played_four_of_clubs,
        played_four_of_clubs,
    ];

    let hand = Hand::build(cards);
    let expected_cards = [
        played_three_of_clubs,
        played_three_of_clubs,
        played_four_of_clubs,
        played_four_of_clubs,
        played_five_of_clubs,
    ];

    assert_eq!(
        hand.unwrap(),
        Hand::FiveCardTrick(Trick {
            trick_type: TrickType::Flush,
            cards: expected_cards,
        })
    );
}

#[test]
fn straight_is_a_straight() {
    let played_three_of_clubs = PlayedCard::new(Rank::Three, Suit::Clubs, false);
    let played_four_of_clubs = PlayedCard::new(Rank::Four, Suit::Clubs, false);
    let played_five_of_clubs = PlayedCard::new(Rank::Five, Suit::Clubs, false);
    let played_six_of_hearts = PlayedCard::new(Rank::Six, Suit::Hearts, false);
    let played_seven_of_hearts = PlayedCard::new(Rank::Seven, Suit::Hearts, false);

    let cards = vec![
        played_five_of_clubs,
        played_three_of_clubs,
        played_six_of_hearts,
        played_four_of_clubs,
        played_seven_of_hearts,
    ];

    let hand = Hand::build(cards);
    let expected_cards = [
        played_three_of_clubs,
        played_four_of_clubs,
        played_five_of_clubs,
        played_six_of_hearts,
        played_seven_of_hearts,
    ];

    assert_eq!(
        hand.unwrap(),
        Hand::FiveCardTrick(Trick {
            trick_type: TrickType::Straight,
            cards: expected_cards,
        })
    );
}

#[test]
fn straight_flush_is_a_straight_flush() {
    let played_three_of_clubs = PlayedCard::new(Rank::Three, Suit::Clubs, false);
    let played_four_of_clubs = PlayedCard::new(Rank::Four, Suit::Clubs, false);
    let played_five_of_clubs = PlayedCard::new(Rank::Five, Suit::Clubs, false);
    let played_six_of_clubs = PlayedCard::new(Rank::Six, Suit::Clubs, false);
    let played_seven_of_clubs = PlayedCard::new(Rank::Seven, Suit::Clubs, false);

    let cards = vec![
        played_five_of_clubs,
        played_three_of_clubs,
        played_six_of_clubs,
        played_four_of_clubs,
        played_seven_of_clubs,
    ];

    let hand = Hand::build(cards);
    let expected_cards = [
        played_three_of_clubs,
        played_four_of_clubs,
        played_five_of_clubs,
        played_six_of_clubs,
        played_seven_of_clubs,
    ];

    assert_eq!(
        hand.unwrap(),
        Hand::FiveCardTrick(Trick {
            trick_type: TrickType::StraightFlush,
            cards: expected_cards,
        })
    );
}
