use poker::cards::card::Card;
use poker::cards::classifier::{all_distinct, classify};
use poker::cards::comparator::{better_of, compare};
use poker::cards::hand::{ClassifiedHand, Hand, HandError};
use poker::cards::rank::Rank;
use poker::cards::suit::Suit;
use std::cmp::Ordering;

fn card(suit: Suit, rank: Rank) -> Card {
    Card::new(suit, rank)
}

fn royal_flush() -> Vec<Card> {
    vec![
        card(Suit::Spades, Rank::Ace),
        card(Suit::Spades, Rank::King),
        card(Suit::Spades, Rank::Queen),
        card(Suit::Spades, Rank::Jack),
        card(Suit::Spades, Rank::Ten),
    ]
}

fn wheel() -> Vec<Card> {
    vec![
        card(Suit::Hearts, Rank::Ace),
        card(Suit::Clubs, Rank::Two),
        card(Suit::Diamonds, Rank::Three),
        card(Suit::Spades, Rank::Four),
        card(Suit::Hearts, Rank::Five),
    ]
}

fn kings_full_of_twos() -> Vec<Card> {
    vec![
        card(Suit::Clubs, Rank::King),
        card(Suit::Diamonds, Rank::King),
        card(Suit::Hearts, Rank::King),
        card(Suit::Spades, Rank::Two),
        card(Suit::Clubs, Rank::Two),
    ]
}

fn club_flush() -> Vec<Card> {
    vec![
        card(Suit::Clubs, Rank::Two),
        card(Suit::Clubs, Rank::Five),
        card(Suit::Clubs, Rank::Nine),
        card(Suit::Clubs, Rank::Jack),
        card(Suit::Clubs, Rank::King),
    ]
}

#[test]
fn royal_flush_is_recognised() {
    let hand = classify(&royal_flush()).unwrap();
    assert_eq!(hand.category, Hand::RoyalFlush);
    assert_eq!(
        hand.key,
        vec![Rank::Ace, Rank::King, Rank::Queen, Rank::Jack, Rank::Ten]
    );
}

#[test]
fn wheel_is_a_straight_not_a_high_card() {
    let hand = classify(&wheel()).unwrap();
    assert_eq!(hand.category, Hand::Straight);
    assert_ne!(hand.category, Hand::HighCard);
    assert_eq!(
        hand.key,
        vec![Rank::Ace, Rank::Five, Rank::Four, Rank::Three, Rank::Two]
    );
}

#[test]
fn full_house_beats_flush() {
    let full = classify(&kings_full_of_twos()).unwrap();
    let flush = classify(&club_flush()).unwrap();
    assert_eq!(full.category, Hand::FullHouse);
    assert_eq!(full.key, vec![Rank::King, Rank::Two]);
    assert_eq!(flush.category, Hand::Flush);
    assert_eq!(
        flush.key,
        vec![Rank::King, Rank::Jack, Rank::Nine, Rank::Five, Rank::Two]
    );
    assert_eq!(compare(&full, &flush), Ordering::Greater);
    assert_eq!(compare(&flush, &full), Ordering::Less);
}

#[test]
fn same_ranks_in_other_suits_tie() {
    let a = classify(&vec![
        card(Suit::Clubs, Rank::King),
        card(Suit::Diamonds, Rank::King),
        card(Suit::Hearts, Rank::Nine),
        card(Suit::Spades, Rank::Four),
        card(Suit::Clubs, Rank::Two),
    ])
    .unwrap();
    let b = classify(&vec![
        card(Suit::Hearts, Rank::King),
        card(Suit::Spades, Rank::King),
        card(Suit::Diamonds, Rank::Nine),
        card(Suit::Clubs, Rank::Four),
        card(Suit::Hearts, Rank::Two),
    ])
    .unwrap();
    assert_eq!(a.category, Hand::OnePair);
    assert_eq!(compare(&a, &b), Ordering::Equal);
    assert_eq!(compare(&b, &a), Ordering::Equal);
    assert_eq!(a, b);
}

#[test]
fn seven_cards_select_the_royal_flush() {
    let mut cards = royal_flush();
    cards.push(card(Suit::Clubs, Rank::Two));
    cards.push(card(Suit::Diamonds, Rank::Three));
    let hand = classify(&cards).unwrap();
    assert_eq!(hand.category, Hand::RoyalFlush);
    assert_eq!(
        hand.key,
        vec![Rank::Ace, Rank::King, Rank::Queen, Rank::Jack, Rank::Ten]
    );
    assert_eq!(hand, classify(&royal_flush()).unwrap());
}

#[test]
fn four_cards_are_an_invalid_hand() {
    let mut cards = royal_flush();
    cards.pop();
    assert_eq!(classify(&cards), Err(HandError::InvalidHand));
    assert_eq!(classify(&Vec::new()), Err(HandError::InvalidHand));
}

#[test]
fn a_duplicated_card_is_an_invalid_hand() {
    let mut cards = royal_flush();
    cards[4] = card(Suit::Spades, Rank::Ace);
    assert_eq!(classify(&cards), Err(HandError::InvalidHand));
    let mut seven = royal_flush();
    seven.push(card(Suit::Clubs, Rank::Two));
    seven.push(card(Suit::Spades, Rank::King));
    assert_eq!(classify(&seven), Err(HandError::InvalidHand));
    assert!(!all_distinct(&seven));
    assert!(all_distinct(&royal_flush()));
}

#[test]
fn any_order_of_the_cards_gives_the_same_hand() {
    let cards = vec![
        card(Suit::Clubs, Rank::Nine),
        card(Suit::Diamonds, Rank::Nine),
        card(Suit::Hearts, Rank::Four),
        card(Suit::Spades, Rank::Four),
        card(Suit::Clubs, Rank::Queen),
    ];
    let expected = classify(&cards).unwrap();
    assert_eq!(expected.category, Hand::TwoPair);
    assert_eq!(expected.key, vec![Rank::Nine, Rank::Four, Rank::Queen]);
    let orders: [[usize; 5]; 5] = [
        [4, 3, 2, 1, 0],
        [1, 0, 3, 2, 4],
        [2, 4, 0, 3, 1],
        [3, 1, 4, 0, 2],
        [0, 2, 4, 1, 3],
    ];
    for order in orders.iter() {
        let shuffled: Vec<Card> = order.iter().map(|&i| cards[i]).collect();
        assert_eq!(classify(&shuffled).unwrap(), expected);
    }
}

#[test]
fn any_order_of_seven_cards_gives_the_same_hand() {
    let mut cards = kings_full_of_twos();
    cards.push(card(Suit::Hearts, Rank::Ace));
    cards.push(card(Suit::Diamonds, Rank::Two));
    let expected = classify(&cards).unwrap();
    assert_eq!(expected.category, Hand::FullHouse);
    assert_eq!(expected.key, vec![Rank::King, Rank::Two]);
    let mut reversed = cards.clone();
    reversed.reverse();
    assert_eq!(classify(&reversed).unwrap(), expected);
    let mut rotated = cards.clone();
    rotated.rotate_left(3);
    assert_eq!(classify(&rotated).unwrap(), expected);
}

#[test]
fn each_category_with_its_key() {
    let straight_flush = classify(&vec![
        card(Suit::Hearts, Rank::Nine),
        card(Suit::Hearts, Rank::Eight),
        card(Suit::Hearts, Rank::Seven),
        card(Suit::Hearts, Rank::Six),
        card(Suit::Hearts, Rank::Five),
    ])
    .unwrap();
    assert_eq!(straight_flush.category, Hand::StraightFlush);
    assert_eq!(
        straight_flush.key,
        vec![Rank::Nine, Rank::Eight, Rank::Seven, Rank::Six, Rank::Five]
    );

    let quads = classify(&vec![
        card(Suit::Hearts, Rank::Seven),
        card(Suit::Clubs, Rank::Seven),
        card(Suit::Diamonds, Rank::Seven),
        card(Suit::Spades, Rank::Seven),
        card(Suit::Hearts, Rank::Ace),
    ])
    .unwrap();
    assert_eq!(quads.category, Hand::FourOfAKind);
    assert_eq!(quads.key, vec![Rank::Seven, Rank::Ace]);

    let straight = classify(&vec![
        card(Suit::Hearts, Rank::Ten),
        card(Suit::Clubs, Rank::Jack),
        card(Suit::Diamonds, Rank::Queen),
        card(Suit::Spades, Rank::King),
        card(Suit::Hearts, Rank::Ace),
    ])
    .unwrap();
    assert_eq!(straight.category, Hand::Straight);
    assert_eq!(
        straight.key,
        vec![Rank::Ace, Rank::King, Rank::Queen, Rank::Jack, Rank::Ten]
    );

    let trips = classify(&vec![
        card(Suit::Hearts, Rank::Three),
        card(Suit::Clubs, Rank::Three),
        card(Suit::Diamonds, Rank::Three),
        card(Suit::Spades, Rank::King),
        card(Suit::Hearts, Rank::Ace),
    ])
    .unwrap();
    assert_eq!(trips.category, Hand::ThreeOfAKind);
    assert_eq!(trips.key, vec![Rank::Three, Rank::Ace, Rank::King]);

    let pair = classify(&vec![
        card(Suit::Hearts, Rank::Three),
        card(Suit::Clubs, Rank::Three),
        card(Suit::Diamonds, Rank::Jack),
        card(Suit::Spades, Rank::King),
        card(Suit::Hearts, Rank::Ace),
    ])
    .unwrap();
    assert_eq!(pair.category, Hand::OnePair);
    assert_eq!(
        pair.key,
        vec![Rank::Three, Rank::Ace, Rank::King, Rank::Jack]
    );

    let high = classify(&vec![
        card(Suit::Hearts, Rank::Three),
        card(Suit::Clubs, Rank::Nine),
        card(Suit::Diamonds, Rank::Jack),
        card(Suit::Spades, Rank::King),
        card(Suit::Hearts, Rank::Ace),
    ])
    .unwrap();
    assert_eq!(high.category, Hand::HighCard);
    assert_eq!(
        high.key,
        vec![Rank::Ace, Rank::King, Rank::Jack, Rank::Nine, Rank::Three]
    );
}

#[test]
fn a_run_round_the_corner_is_no_straight() {
    let hand = classify(&vec![
        card(Suit::Hearts, Rank::Queen),
        card(Suit::Clubs, Rank::King),
        card(Suit::Diamonds, Rank::Ace),
        card(Suit::Spades, Rank::Two),
        card(Suit::Hearts, Rank::Three),
    ])
    .unwrap();
    assert_eq!(hand.category, Hand::HighCard);
}

#[test]
fn a_suited_wheel_is_a_straight_flush() {
    let hand = classify(&vec![
        card(Suit::Hearts, Rank::Ace),
        card(Suit::Hearts, Rank::Two),
        card(Suit::Hearts, Rank::Three),
        card(Suit::Hearts, Rank::Four),
        card(Suit::Hearts, Rank::Five),
    ])
    .unwrap();
    assert_eq!(hand.category, Hand::StraightFlush);
}

#[test]
fn best_five_of_six_prefers_the_higher_category() {
    let hand = classify(&vec![
        card(Suit::Hearts, Rank::Two),
        card(Suit::Clubs, Rank::Two),
        card(Suit::Diamonds, Rank::Nine),
        card(Suit::Spades, Rank::Nine),
        card(Suit::Hearts, Rank::Five),
        card(Suit::Clubs, Rank::Nine),
    ])
    .unwrap();
    assert_eq!(hand.category, Hand::FullHouse);
    assert_eq!(hand.key, vec![Rank::Nine, Rank::Two]);
}

#[test]
fn best_five_of_seven_prefers_the_higher_kicker() {
    let hand = classify(&vec![
        card(Suit::Hearts, Rank::Two),
        card(Suit::Clubs, Rank::Two),
        card(Suit::Diamonds, Rank::Nine),
        card(Suit::Spades, Rank::Jack),
        card(Suit::Hearts, Rank::Five),
        card(Suit::Clubs, Rank::King),
        card(Suit::Clubs, Rank::Four),
    ])
    .unwrap();
    assert_eq!(hand.category, Hand::OnePair);
    assert_eq!(
        hand.key,
        vec![Rank::Two, Rank::King, Rank::Jack, Rank::Nine]
    );
}

#[test]
fn first_differing_rank_of_the_key_decides() {
    let higher = ClassifiedHand {
        category: Hand::OnePair,
        key: vec![Rank::Nine, Rank::Ace, Rank::Four, Rank::Three],
    };
    let lower = ClassifiedHand {
        category: Hand::OnePair,
        key: vec![Rank::Nine, Rank::King, Rank::Queen, Rank::Jack],
    };
    assert_eq!(compare(&higher, &lower), Ordering::Greater);
    assert_eq!(compare(&lower, &higher), Ordering::Less);
    assert_eq!(compare(&lower, &lower), Ordering::Equal);
    let weakest_pair = ClassifiedHand {
        category: Hand::OnePair,
        key: vec![Rank::Two, Rank::Five, Rank::Four, Rank::Three],
    };
    let strongest_high_card = ClassifiedHand {
        category: Hand::HighCard,
        key: vec![Rank::Ace, Rank::King, Rank::Queen, Rank::Jack, Rank::Nine],
    };
    assert_eq!(
        compare(&weakest_pair, &strongest_high_card),
        Ordering::Greater
    );
}

#[test]
fn a_key_that_ends_first_is_the_lesser() {
    let short = ClassifiedHand {
        category: Hand::HighCard,
        key: vec![Rank::Ace],
    };
    let long = ClassifiedHand {
        category: Hand::HighCard,
        key: vec![Rank::Ace, Rank::Two],
    };
    assert_eq!(compare(&short, &long), Ordering::Less);
    assert_eq!(compare(&long, &short), Ordering::Greater);
}

#[test]
fn the_order_of_hands_is_total_and_transitive() {
    let hands: Vec<ClassifiedHand> = vec![
        classify(&royal_flush()).unwrap(),
        classify(&wheel()).unwrap(),
        classify(&kings_full_of_twos()).unwrap(),
        classify(&club_flush()).unwrap(),
    ];
    for a in hands.iter() {
        assert_eq!(compare(a, a), Ordering::Equal);
        for b in hands.iter() {
            assert_eq!(compare(a, b), compare(b, a).reverse());
            for c in hands.iter() {
                if compare(a, b) != Ordering::Greater && compare(b, c) != Ordering::Greater {
                    assert_ne!(compare(a, c), Ordering::Greater);
                }
            }
        }
    }
}

#[test]
fn better_of_keeps_the_winner() {
    let full = classify(&kings_full_of_twos()).unwrap();
    let flush = classify(&club_flush()).unwrap();
    assert_eq!(better_of(flush.clone(), full.clone()), full);
    assert_eq!(better_of(full.clone(), flush.clone()), full);
    assert_eq!(better_of(flush.clone(), flush.clone()), flush);
}

#[test]
fn categories_by_name_and_strength() {
    assert_eq!(Hand::new(), Hand::HighCard);
    assert_eq!(Hand::default(), Hand::HighCard);
    assert_eq!(Hand::RoyalFlush.name(), "Royal Flush");
    assert_eq!(Hand::StraightFlush.name(), "Straight Flush");
    assert_eq!(Hand::FourOfAKind.name(), "Four of a Kind");
    assert_eq!(Hand::FullHouse.name(), "Full House");
    assert_eq!(Hand::Flush.name(), "Flush");
    assert_eq!(Hand::Straight.name(), "Straight");
    assert_eq!(Hand::ThreeOfAKind.name(), "Three of a Kind");
    assert_eq!(Hand::TwoPair.name(), "Two Pair");
    assert_eq!(Hand::OnePair.name(), "One Pair");
    assert_eq!(Hand::HighCard.name(), "High Card");
    assert_eq!(Hand::RoyalFlush.strength(), 9);
    assert_eq!(Hand::FullHouse.strength(), 6);
    assert_eq!(Hand::Flush.strength(), 5);
    assert_eq!(Hand::HighCard.strength(), 0);
}

#[test]
fn category_checks_answer_for_their_own_category_only() {
    assert!(Hand::StraightFlush.is_straight_flush());
    assert!(Hand::FourOfAKind.is_four_of_a_kind());
    assert!(Hand::FullHouse.is_full_house());
    assert!(Hand::Flush.is_flush());
    assert!(Hand::Straight.is_straight());
    assert!(Hand::ThreeOfAKind.is_three_of_a_kind());
    assert!(Hand::TwoPair.is_two_pair());
    assert!(Hand::OnePair.is_one_pair());
    assert!(Hand::HighCard.is_high_card());
    assert!(!Hand::Flush.is_straight_flush());
    assert!(!Hand::Straight.is_flush());
    assert!(!Hand::HighCard.is_one_pair());
    assert!(!Hand::TwoPair.is_full_house());
}

#[test]
fn royal_flush_check_reads_the_cards() {
    assert!(Hand::new().is_royal_flush(royal_flush()));
    assert!(!Hand::new().is_royal_flush(club_flush()));
    assert!(!Hand::RoyalFlush.is_royal_flush(wheel()));
    let mut four = royal_flush();
    four.pop();
    assert!(!Hand::RoyalFlush.is_royal_flush(four));
}

#[test]
fn categories_are_ordered_by_strength() {
    let weakest_first = [
        Hand::HighCard,
        Hand::OnePair,
        Hand::TwoPair,
        Hand::ThreeOfAKind,
        Hand::Straight,
        Hand::Flush,
        Hand::FullHouse,
        Hand::FourOfAKind,
        Hand::StraightFlush,
        Hand::RoyalFlush,
    ];
    for i in 0..weakest_first.len() {
        assert_eq!(weakest_first[i].strength() as usize, i);
        for j in 0..weakest_first.len() {
            assert_eq!(weakest_first[i] < weakest_first[j], i < j);
            assert_eq!(
                weakest_first[i].partial_cmp(&weakest_first[j]),
                Some(i.cmp(&j))
            );
        }
    }
}
