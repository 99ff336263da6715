use poker::cards::card::Card;
use poker::cards::classifier::classify;
use poker::cards::comparator::beats;
use poker::cards::hand::{ClassifiedHand, Hand};
use poker::cards::rank::Rank;
use poker::cards::showdown::winners;
use poker::cards::suit::Suit;

fn pair_of(rank: Rank, first: Suit, second: Suit) -> ClassifiedHand {
    classify(&vec![
        Card::new(first, rank),
        Card::new(second, rank),
        Card::new(first, Rank::Two),
        Card::new(second, Rank::Seven),
        Card::new(first, Rank::Nine),
    ])
    .unwrap()
}

#[test]
fn a_single_best_hand_wins_alone() {
    let hands = vec![
        pair_of(Rank::Four, Suit::Clubs, Suit::Hearts),
        pair_of(Rank::King, Suit::Clubs, Suit::Hearts),
        pair_of(Rank::Ten, Suit::Clubs, Suit::Hearts),
    ];
    assert_eq!(winners(&hands), vec![1]);
}

#[test]
fn hands_that_tie_at_the_top_all_win() {
    let hands = vec![
        pair_of(Rank::King, Suit::Clubs, Suit::Hearts),
        pair_of(Rank::Four, Suit::Clubs, Suit::Hearts),
        pair_of(Rank::King, Suit::Diamonds, Suit::Spades),
        pair_of(Rank::Ten, Suit::Clubs, Suit::Hearts),
        pair_of(Rank::King, Suit::Clubs, Suit::Spades),
    ];
    assert_eq!(winners(&hands), vec![0, 2, 4]);
}

#[test]
fn a_later_better_hand_replaces_earlier_ties() {
    let hands = vec![
        pair_of(Rank::Four, Suit::Clubs, Suit::Hearts),
        pair_of(Rank::Four, Suit::Diamonds, Suit::Spades),
        pair_of(Rank::Ace, Suit::Clubs, Suit::Hearts),
    ];
    assert_eq!(winners(&hands), vec![2]);
}

#[test]
fn nobody_wins_at_an_empty_table() {
    let hands: Vec<ClassifiedHand> = Vec::new();
    assert_eq!(winners(&hands), Vec::<usize>::new());
}

#[test]
fn one_player_wins_alone() {
    let hands = vec![pair_of(Rank::Four, Suit::Clubs, Suit::Hearts)];
    assert_eq!(hands[0].category, Hand::OnePair);
    assert_eq!(winners(&hands), vec![0]);
}

#[test]
fn beats_is_strict() {
    let kings = pair_of(Rank::King, Suit::Clubs, Suit::Hearts);
    let other_kings = pair_of(Rank::King, Suit::Diamonds, Suit::Spades);
    let fours = pair_of(Rank::Four, Suit::Clubs, Suit::Hearts);
    assert!(beats(&kings, &fours));
    assert!(!beats(&fours, &kings));
    assert!(!beats(&kings, &other_kings));
    assert!(!beats(&other_kings, &kings));
}
