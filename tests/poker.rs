use poker::card::{Card, Rank, Suit};
use poker::deal::{deal_hands, DealError};
use poker::deck::generate_deck;
use poker::display::{hand_line, hand_string};
use poker::hand::{analyze_hand, Hand, HandType};
use poker::ranking::rank_order;
use poker::shuffle::shuffle_deck;

fn c(rank: Rank, suit: Suit) -> Card {
    Card::new(rank, suit)
}

fn hand(cards: [Card; 5]) -> Hand {
    let hand_type = analyze_hand(&cards);
    Hand { cards, hand_type }
}

fn sorted(mut v: Vec<Card>) -> Vec<Card> {
    v.sort();
    v
}

#[test]
fn deck_has_52_distinct_cards() {
    let deck = generate_deck();
    assert_eq!(deck.len(), 52);
    for i in 0..deck.len() {
        for j in (i + 1)..deck.len() {
            assert_ne!(deck[i], deck[j]);
        }
    }
}

#[test]
fn deck_holds_every_rank_and_suit() {
    let deck = generate_deck();
    let suits = [Suit::Diamonds, Suit::Clubs, Suit::Hearts, Suit::Spades];
    let ranks = [
        Rank::Two, Rank::Three, Rank::Four, Rank::Five, Rank::Six, Rank::Seven, Rank::Eight,
        Rank::Nine, Rank::Ten, Rank::Jack, Rank::Queen, Rank::King, Rank::Ace,
    ];
    for s in suits.iter() {
        for r in ranks.iter() {
            assert!(deck.contains(&c(*r, *s)));
        }
    }
}

#[test]
fn deck_order_is_suits_then_ranks() {
    let deck = generate_deck();
    assert_eq!(deck[0], c(Rank::Two, Suit::Diamonds));
    assert_eq!(deck[12], c(Rank::Ace, Suit::Diamonds));
    assert_eq!(deck[13], c(Rank::Two, Suit::Clubs));
    assert_eq!(deck[26], c(Rank::Two, Suit::Hearts));
    assert_eq!(deck[51], c(Rank::Ace, Suit::Spades));
}

#[test]
fn shuffle_five_card_example() {
    let d = vec![
        c(Rank::Two, Suit::Clubs),
        c(Rank::Three, Suit::Clubs),
        c(Rank::Four, Suit::Clubs),
        c(Rank::Five, Suit::Clubs),
        c(Rank::Six, Suit::Clubs),
    ];
    let out = shuffle_deck(d.clone());
    assert_eq!(out, vec![d[4], d[0], d[3], d[1], d[2]]);
}

#[test]
fn shuffle_even_length_has_no_remainder() {
    let d = vec![
        c(Rank::Two, Suit::Hearts),
        c(Rank::Three, Suit::Hearts),
        c(Rank::Four, Suit::Hearts),
        c(Rank::Five, Suit::Hearts),
    ];
    let out = shuffle_deck(d.clone());
    assert_eq!(out, vec![d[3], d[0], d[2], d[1]]);
}

#[test]
fn shuffle_empty_and_single() {
    assert_eq!(shuffle_deck(Vec::new()), Vec::<Card>::new());
    let one = vec![c(Rank::Ace, Suit::Spades)];
    assert_eq!(shuffle_deck(one.clone()), one);
}

#[test]
fn shuffle_is_permutation_of_full_deck() {
    let deck = generate_deck();
    let out = shuffle_deck(deck.clone());
    assert_eq!(out.len(), 52);
    assert_ne!(out, deck);
    assert_eq!(sorted(out), sorted(deck));
}

#[test]
fn shuffle_keeps_duplicates() {
    let a = c(Rank::Nine, Suit::Clubs);
    let b = c(Rank::King, Suit::Hearts);
    let out = shuffle_deck(vec![a, a, b]);
    assert_eq!(out, vec![b, a, a]);
}

#[test]
fn shuffle_is_deterministic() {
    let first = shuffle_deck(generate_deck());
    let second = shuffle_deck(generate_deck());
    assert_eq!(first, second);
}

#[test]
fn shuffled_full_deck_starts_from_both_ends() {
    let out = shuffle_deck(generate_deck());
    assert_eq!(out[0], c(Rank::Ace, Suit::Spades));
    assert_eq!(out[1], c(Rank::Two, Suit::Diamonds));
    assert_eq!(out[2], c(Rank::King, Suit::Spades));
    assert_eq!(out[3], c(Rank::Three, Suit::Diamonds));
    assert_eq!(out[51], c(Rank::Ace, Suit::Clubs));
}

#[test]
fn deal_six_hands_of_five() {
    let deck = shuffle_deck(generate_deck());
    let hands = deal_hands(&deck, 6, 5).unwrap();
    assert_eq!(hands.len(), 6);
    let mut all = Vec::new();
    for h in hands.iter() {
        assert_eq!(h.cards.len(), 5);
        assert_eq!(h.hand_type, analyze_hand(&h.cards));
        all.extend_from_slice(&h.cards);
    }
    assert_eq!(all.len(), 30);
    assert_eq!(&all[..], &deck[..30]);
    for i in 0..all.len() {
        for j in (i + 1)..all.len() {
            assert_ne!(all[i], all[j]);
        }
    }
}

#[test]
fn first_dealt_hand_of_shuffled_deck() {
    let deck = shuffle_deck(generate_deck());
    let hands = deal_hands(&deck, 6, 5).unwrap();
    assert_eq!(
        hands[0].cards,
        [
            c(Rank::Ace, Suit::Spades),
            c(Rank::Two, Suit::Diamonds),
            c(Rank::King, Suit::Spades),
            c(Rank::Three, Suit::Diamonds),
            c(Rank::Queen, Suit::Spades),
        ]
    );
    assert_eq!(hands[0].hand_type, HandType::HighCard);
}

#[test]
fn deal_rejects_other_hand_sizes() {
    let deck = generate_deck();
    assert_eq!(deal_hands(&deck, 6, 4), Err(DealError::UnsupportedHandSize));
    assert_eq!(deal_hands(&deck, 2, 7), Err(DealError::UnsupportedHandSize));
}

#[test]
fn deal_rejects_too_many_hands() {
    let deck = generate_deck();
    assert_eq!(deal_hands(&deck, 11, 5), Err(DealError::NotEnoughCards));
    assert_eq!(deal_hands(&deck[..29], 6, 5), Err(DealError::NotEnoughCards));
    assert_eq!(deal_hands(&deck, usize::MAX, 5), Err(DealError::NotEnoughCards));
}

#[test]
fn deal_uses_exactly_all_cards_when_they_suffice() {
    let deck = generate_deck();
    assert_eq!(deal_hands(&deck, 10, 5).unwrap().len(), 10);
    assert_eq!(deal_hands(&deck[..30], 6, 5).unwrap().len(), 6);
    assert_eq!(deal_hands(&deck, 0, 5).unwrap().len(), 0);
}

fn royal() -> [Card; 5] {
    [
        c(Rank::Ten, Suit::Hearts),
        c(Rank::Jack, Suit::Hearts),
        c(Rank::Queen, Suit::Hearts),
        c(Rank::King, Suit::Hearts),
        c(Rank::Ace, Suit::Hearts),
    ]
}

fn straight_flush() -> [Card; 5] {
    [
        c(Rank::Two, Suit::Clubs),
        c(Rank::Three, Suit::Clubs),
        c(Rank::Four, Suit::Clubs),
        c(Rank::Five, Suit::Clubs),
        c(Rank::Six, Suit::Clubs),
    ]
}

fn four_of_a_kind() -> [Card; 5] {
    [
        c(Rank::Nine, Suit::Diamonds),
        c(Rank::Nine, Suit::Clubs),
        c(Rank::Nine, Suit::Hearts),
        c(Rank::Nine, Suit::Spades),
        c(Rank::Two, Suit::Diamonds),
    ]
}

fn full_house() -> [Card; 5] {
    [
        c(Rank::Five, Suit::Diamonds),
        c(Rank::Five, Suit::Clubs),
        c(Rank::Five, Suit::Hearts),
        c(Rank::Two, Suit::Spades),
        c(Rank::Two, Suit::Diamonds),
    ]
}

fn flush() -> [Card; 5] {
    [
        c(Rank::Two, Suit::Diamonds),
        c(Rank::Seven, Suit::Diamonds),
        c(Rank::Nine, Suit::Diamonds),
        c(Rank::Jack, Suit::Diamonds),
        c(Rank::King, Suit::Diamonds),
    ]
}

fn straight() -> [Card; 5] {
    [
        c(Rank::Four, Suit::Diamonds),
        c(Rank::Five, Suit::Clubs),
        c(Rank::Six, Suit::Hearts),
        c(Rank::Seven, Suit::Spades),
        c(Rank::Eight, Suit::Diamonds),
    ]
}

fn wheel() -> [Card; 5] {
    [
        c(Rank::Ace, Suit::Diamonds),
        c(Rank::Two, Suit::Clubs),
        c(Rank::Three, Suit::Hearts),
        c(Rank::Four, Suit::Spades),
        c(Rank::Five, Suit::Diamonds),
    ]
}

fn three_of_a_kind() -> [Card; 5] {
    [
        c(Rank::Three, Suit::Diamonds),
        c(Rank::Three, Suit::Clubs),
        c(Rank::Three, Suit::Hearts),
        c(Rank::Eight, Suit::Spades),
        c(Rank::King, Suit::Diamonds),
    ]
}

fn two_pair() -> [Card; 5] {
    [
        c(Rank::Four, Suit::Diamonds),
        c(Rank::Four, Suit::Clubs),
        c(Rank::Nine, Suit::Hearts),
        c(Rank::Nine, Suit::Spades),
        c(Rank::King, Suit::Diamonds),
    ]
}

fn one_pair() -> [Card; 5] {
    [
        c(Rank::Two, Suit::Diamonds),
        c(Rank::Two, Suit::Clubs),
        c(Rank::Five, Suit::Hearts),
        c(Rank::Nine, Suit::Spades),
        c(Rank::King, Suit::Diamonds),
    ]
}

fn high_card() -> [Card; 5] {
    [
        c(Rank::Two, Suit::Diamonds),
        c(Rank::Five, Suit::Clubs),
        c(Rank::Nine, Suit::Hearts),
        c(Rank::Jack, Suit::Spades),
        c(Rank::King, Suit::Diamonds),
    ]
}

#[test]
fn classify_royal_flush() {
    assert_eq!(analyze_hand(&royal()), HandType::RoyalFlush);
}

#[test]
fn classify_straight_flush() {
    assert_eq!(analyze_hand(&straight_flush()), HandType::StraightFlush);
}

#[test]
fn classify_four_of_a_kind() {
    assert_eq!(analyze_hand(&four_of_a_kind()), HandType::FourOfAKind);
}

#[test]
fn classify_full_house() {
    assert_eq!(analyze_hand(&full_house()), HandType::FullHouse);
}

#[test]
fn classify_flush() {
    assert_eq!(analyze_hand(&flush()), HandType::Flush);
}

#[test]
fn classify_straight() {
    assert_eq!(analyze_hand(&straight()), HandType::Straight);
}

#[test]
fn classify_wheel_straight() {
    assert_eq!(analyze_hand(&wheel()), HandType::Straight);
}

#[test]
fn classify_three_of_a_kind() {
    assert_eq!(analyze_hand(&three_of_a_kind()), HandType::ThreeOfAKind);
}

#[test]
fn classify_two_pair() {
    assert_eq!(analyze_hand(&two_pair()), HandType::TwoPair);
}

#[test]
fn classify_one_pair() {
    assert_eq!(analyze_hand(&one_pair()), HandType::OnePair);
}

#[test]
fn classify_high_card() {
    assert_eq!(analyze_hand(&high_card()), HandType::HighCard);
}

#[test]
fn classify_ignores_card_order() {
    let mut h = royal();
    h.reverse();
    assert_eq!(analyze_hand(&h), HandType::RoyalFlush);
    let mut w = wheel();
    w.swap(0, 4);
    assert_eq!(analyze_hand(&w), HandType::Straight);
}

#[test]
fn classify_wheel_in_one_suit_is_straight_flush() {
    let h = [
        c(Rank::Ace, Suit::Spades),
        c(Rank::Two, Suit::Spades),
        c(Rank::Three, Suit::Spades),
        c(Rank::Four, Suit::Spades),
        c(Rank::Five, Suit::Spades),
    ];
    assert_eq!(analyze_hand(&h), HandType::StraightFlush);
}

#[test]
fn classify_ace_does_not_wrap_around() {
    let h = [
        c(Rank::Queen, Suit::Spades),
        c(Rank::King, Suit::Clubs),
        c(Rank::Ace, Suit::Hearts),
        c(Rank::Two, Suit::Diamonds),
        c(Rank::Three, Suit::Spades),
    ];
    assert_eq!(analyze_hand(&h), HandType::HighCard);
    let g = [
        c(Rank::Two, Suit::Spades),
        c(Rank::Three, Suit::Clubs),
        c(Rank::Four, Suit::Hearts),
        c(Rank::Ace, Suit::Diamonds),
        c(Rank::King, Suit::Spades),
    ];
    assert_eq!(analyze_hand(&g), HandType::HighCard);
}

#[test]
fn classify_broad_straight_is_not_royal() {
    let h = [
        c(Rank::Nine, Suit::Hearts),
        c(Rank::Ten, Suit::Hearts),
        c(Rank::Jack, Suit::Hearts),
        c(Rank::Queen, Suit::Hearts),
        c(Rank::King, Suit::Hearts),
    ];
    assert_eq!(analyze_hand(&h), HandType::StraightFlush);
}

#[test]
fn ranking_reproduces_category_order() {
    let examples = vec![
        hand(high_card()),
        hand(wheel()),
        hand(two_pair()),
        hand(royal()),
        hand(one_pair()),
        hand(flush()),
        hand(three_of_a_kind()),
        hand(four_of_a_kind()),
        hand(straight()),
        hand(full_house()),
        hand(straight_flush()),
    ];
    let ranked = rank_order(&examples);
    let types: Vec<HandType> = ranked.iter().map(|h| h.hand_type).collect();
    assert_eq!(
        types,
        vec![
            HandType::RoyalFlush,
            HandType::StraightFlush,
            HandType::FourOfAKind,
            HandType::FullHouse,
            HandType::Flush,
            HandType::Straight,
            HandType::Straight,
            HandType::ThreeOfAKind,
            HandType::TwoPair,
            HandType::OnePair,
            HandType::HighCard,
        ]
    );
    // the two straights keep their input order: the wheel came first
    assert_eq!(ranked[5], hand(wheel()));
    assert_eq!(ranked[6], hand(straight()));
}

#[test]
fn ranking_is_stable_for_equal_categories() {
    let a = hand(high_card());
    let b = hand(one_pair());
    let other_high = hand([
        c(Rank::Three, Suit::Diamonds),
        c(Rank::Six, Suit::Clubs),
        c(Rank::Ten, Suit::Hearts),
        c(Rank::Queen, Suit::Spades),
        c(Rank::Ace, Suit::Diamonds),
    ]);
    let ranked = rank_order(&[other_high, a, b]);
    assert_eq!(ranked, vec![b, other_high, a]);
    let ranked = rank_order(&[a, b, other_high]);
    assert_eq!(ranked, vec![b, a, other_high]);
}

#[test]
fn ranking_empty() {
    assert_eq!(rank_order(&[]), Vec::<Hand>::new());
}

#[test]
fn card_values_and_codes() {
    assert_eq!(c(Rank::Two, Suit::Diamonds).rank_value(), 2);
    assert_eq!(c(Rank::Ten, Suit::Clubs).rank_value(), 10);
    assert_eq!(c(Rank::Jack, Suit::Clubs).rank_value(), 11);
    assert_eq!(c(Rank::Ace, Suit::Hearts).rank_value(), 14);
    assert_eq!(c(Rank::Ace, Suit::Diamonds).suit_char(), 'D');
    assert_eq!(c(Rank::Ace, Suit::Clubs).suit_char(), 'C');
    assert_eq!(c(Rank::Ace, Suit::Hearts).suit_char(), 'H');
    assert_eq!(c(Rank::Ace, Suit::Spades).suit_char(), 'S');
}

#[test]
fn card_text_tokens() {
    assert_eq!(c(Rank::Ten, Suit::Hearts).card_string(), "10H");
    assert_eq!(c(Rank::Ace, Suit::Spades).card_string(), "AS");
    assert_eq!(c(Rank::Two, Suit::Diamonds).card_string(), "2D");
    assert_eq!(c(Rank::Queen, Suit::Clubs).card_string(), "QC");
}

#[test]
fn hand_text_and_line() {
    let h = hand(high_card());
    assert_eq!(hand_string(&h), "2D 5C 9H JS KD");
    assert_eq!(hand_line(&h), "2D 5C 9H JS KD       - HighCard");
    let r = hand(royal());
    assert_eq!(hand_string(&r), "10H JH QH KH AH");
    assert_eq!(hand_line(&r), "10H JH QH KH AH      - RoyalFlush");
}

#[test]
fn widest_hand_text_is_padded() {
    let h = hand([
        c(Rank::Ten, Suit::Hearts),
        c(Rank::Ten, Suit::Clubs),
        c(Rank::Ten, Suit::Spades),
        c(Rank::Ten, Suit::Diamonds),
        c(Rank::Two, Suit::Clubs),
    ]);
    assert_eq!(hand_line(&h), "10H 10C 10S 10D 2C   - FourOfAKind");
    let t = hand([
        c(Rank::Ten, Suit::Hearts),
        c(Rank::Ten, Suit::Clubs),
        c(Rank::Ten, Suit::Spades),
        c(Rank::Ten, Suit::Diamonds),
        c(Rank::Jack, Suit::Clubs),
    ]);
    assert_eq!(hand_string(&t), "10H 10C 10S 10D JC");
}
