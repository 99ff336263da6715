use poker::cards::card::Card;
use poker::cards::is_all_same;
use poker::cards::deck::Deck;
use poker::cards::rank::Rank;
use poker::cards::suit::Suit;

#[test]
fn test_new() {
    let card = Card::new(Suit::Spades, Rank::Ace);
    assert_eq!(card.get_suit(), Suit::Spades);
    assert_eq!(card.get_rank(), Rank::Ace);
}

#[test]
fn test_get_suit() {
    let card = Card::new(Suit::Spades, Rank::Ace);
    assert_eq!(card.get_suit(), Suit::Spades);
}

#[test]
fn test_get_rank() {
    let card = Card::new(Suit::Spades, Rank::Ace);
    assert_eq!(card.get_rank(), Rank::Ace);
}

#[test]
fn test_all() {
    let cards = Card::all();
    for (i, card) in Card::all().iter().enumerate() {
        assert_eq!(*card, cards[i]);
    }
}

#[test]
fn suits_are_four_in_order() {
    assert_eq!(
        Suit::all(),
        vec![Suit::Clubs, Suit::Diamonds, Suit::Hearts, Suit::Spades]
    );
}

#[test]
fn ranks_are_thirteen_ascending() {
    let ranks = Rank::all();
    assert_eq!(ranks.len(), 13);
    assert_eq!(ranks[0], Rank::Two);
    assert_eq!(ranks[8], Rank::Ten);
    assert_eq!(ranks[12], Rank::Ace);
    for i in 0..13 {
        assert_eq!(ranks[i].value() as usize, i + 2);
    }
}

#[test]
fn rank_values_and_back() {
    assert_eq!(Rank::Two.value(), 2);
    assert_eq!(Rank::Ten.value(), 10);
    assert_eq!(Rank::Jack.value(), 11);
    assert_eq!(Rank::Queen.value(), 12);
    assert_eq!(Rank::King.value(), 13);
    assert_eq!(Rank::Ace.value(), 14);
    assert_eq!(Rank::from_value(14), Some(Rank::Ace));
    assert_eq!(Rank::from_value(2), Some(Rank::Two));
    assert_eq!(Rank::from_value(1), None);
    assert_eq!(Rank::from_value(15), None);
    assert_eq!(Rank::from_value(0), None);
    for rank in Rank::all() {
        assert_eq!(Rank::from_value(rank.value()), Some(rank));
    }
}

#[test]
fn ace_plays_low_only_by_its_low_value() {
    assert_eq!(Rank::Ace.low_value(), 1);
    assert_eq!(Rank::Two.low_value(), 2);
    assert_eq!(Rank::King.low_value(), 13);
}

#[test]
fn rank_order_has_the_ace_high() {
    assert!(Rank::Two < Rank::Three);
    assert!(Rank::Ten < Rank::Jack);
    assert!(Rank::King < Rank::Ace);
    assert!(Rank::Ace > Rank::Two);
    assert!(Rank::Queen <= Rank::Queen);
    let ranks = Rank::all();
    for i in 0..12 {
        assert!(ranks[i] < ranks[i + 1]);
    }
}

#[test]
fn rank_addition_wraps_round() {
    assert_eq!(Rank::Queen.add(Rank::Ace), Some(Rank::King));
    assert_eq!(Rank::Ace.add(Rank::Ace), Some(Rank::Two));
    assert_eq!(Rank::Two.add(Rank::Queen), Some(Rank::Ace));
    assert_eq!(Rank::King.add(Rank::King), Some(Rank::King));
    assert_eq!(Rank::Queen.add(Rank::Queen), Some(Rank::Jack));
    assert_eq!(Rank::Two.add(Rank::Two), Some(Rank::Four));
    assert_eq!(Rank::Ten.add(Rank::Nine), Some(Rank::Six));
}

#[test]
fn king_is_the_identity_of_rank_addition() {
    for rank in Rank::all() {
        assert_eq!(Rank::King.add(rank), Some(rank));
        assert_eq!(rank.add(Rank::King), Some(rank));
    }
}

#[test]
fn rank_addition_goes_by_places() {
    assert_eq!(Rank::King.place(), 0);
    assert_eq!(Rank::Queen.place(), 1);
    assert_eq!(Rank::Jack.place(), 2);
    assert_eq!(Rank::Ten.place(), 3);
    assert_eq!(Rank::Three.place(), 10);
    assert_eq!(Rank::Two.place(), 11);
    assert_eq!(Rank::Ace.place(), 12);
    assert_eq!(Rank::from_place(0), Some(Rank::King));
    assert_eq!(Rank::from_place(12), Some(Rank::Ace));
    assert_eq!(Rank::from_place(13), None);
    for a in Rank::all() {
        assert_eq!(Rank::from_place(a.place()), Some(a));
        for b in Rank::all() {
            let sum = a.add(b).unwrap();
            assert_eq!(sum.place(), (a.place() + b.place()) % 13);
            assert_eq!(a.add(b), b.add(a));
        }
    }
}

#[test]
fn deck_has_fifty_two_distinct_cards() {
    let cards = Deck::produce();
    assert_eq!(cards.len(), 52);
    for i in 0..cards.len() {
        for j in 0..i {
            assert_ne!(cards[i], cards[j]);
        }
    }
}

#[test]
fn deck_is_the_same_on_every_call() {
    assert_eq!(Deck::produce(), Deck::produce());
    assert_eq!(Deck::new().cards, Deck::produce());
    assert_eq!(Card::all(), Deck::produce());
}

#[test]
fn deck_runs_suit_by_suit_and_rank_by_rank() {
    let cards = Deck::produce();
    let suits = Suit::all();
    let ranks = Rank::all();
    for i in 0..52 {
        assert_eq!(cards[i], Card::new(suits[i / 13], ranks[i % 13]));
    }
    assert_eq!(cards[0], Card::new(Suit::Clubs, Rank::Two));
    assert_eq!(cards[12], Card::new(Suit::Clubs, Rank::Ace));
    assert_eq!(cards[13], Card::new(Suit::Diamonds, Rank::Two));
    assert_eq!(cards[51], Card::new(Suit::Spades, Rank::Ace));
}

#[test]
fn rows_of_one_card_are_all_the_same() {
    let ace = Card::new(Suit::Spades, Rank::Ace);
    let king = Card::new(Suit::Spades, Rank::King);
    assert!(is_all_same(&[]));
    assert!(is_all_same(&[ace]));
    assert!(is_all_same(&[ace, ace, ace]));
    assert!(!is_all_same(&[ace, king]));
    assert!(!is_all_same(&[ace, ace, king]));
    assert!(!is_all_same(&[king, ace, ace]));
    assert!(!is_all_same(&[ace, king, ace]));
    assert!(!is_all_same(&Card::all()));
}
